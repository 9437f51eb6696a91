//! The tally of a probing run: how many targets were reachable, blocked or
//! inconclusive, and the evidence for each target by its name.

use crate::probe::Outcome;
use crate::reports::{Evidence, ReportRow};
use crate::text::texts;
use vstd::hash_map::StringHashMap;
use vstd::prelude::*;
use vstd::string::*;

verus! {

/// How much of the results is shown on the console.
#[derive(Clone, Copy, Debug, PartialEq, Eq, Structural)]
pub enum Verbosity {
    Silent,
    Error,
    Block,
    All,
}

impl Verbosity {
    /// The rank of the setting: a higher setting shows all that a lower one shows.
    pub open spec fn level_spec(self) -> nat {
        match self {
            Verbosity::Silent => 0,
            Verbosity::Error => 1,
            Verbosity::Block => 2,
            Verbosity::All => 3,
        }
    }

    /// The rank of the setting.
    pub fn level(&self) -> (r: u8)
        ensures
            r == self.level_spec(),
    {
        match self {
            Verbosity::Silent => 0,
            Verbosity::Error => 1,
            Verbosity::Block => 2,
            Verbosity::All => 3,
        }
    }
}

/// The tag shown before a target with the given evidence, where such
/// evidence is shown at the given setting.
pub open spec fn shown_tag(evidence: Evidence, verbosity: Verbosity) -> Option<Seq<char>> {
    match evidence {
        Evidence::Okay => if verbosity.level_spec() >= 3 {
            Some("    [Ok] "@)
        } else {
            None
        },
        Evidence::Blocked => if verbosity.level_spec() >= 2 {
            Some("    [Blocked] "@)
        } else {
            None
        },
        Evidence::ConnectError => if verbosity.level_spec() >= 1 {
            Some("    [ConnectError] "@)
        } else {
            None
        },
        Evidence::Error => None,
    }
}

/// The lines shown for `rows` at the given setting: for each row whose
/// evidence is shown, its tag and the target.
pub open spec fn shown_lines(rows: Seq<ReportRow>, verbosity: Verbosity) -> Seq<Seq<char>>
    decreases rows.len(),
{
    if rows.len() == 0 {
        Seq::empty()
    } else {
        let before = shown_lines(rows.drop_last(), verbosity);
        match shown_tag(rows.last().evidence, verbosity) {
            Some(tag) => before.push(tag + rows.last().target@),
            None => before,
        }
    }
}

/// The table exported for `rows`: a row of column names, then target and
/// evidence label of each row.
pub open spec fn exported(rows: Seq<ReportRow>) -> Seq<Seq<Seq<char>>> {
    seq![seq!["target"@, "evidence"@]] + Seq::new(
        rows.len(),
        |i: int| seq![rows[i].target@, rows[i].evidence.label_spec()],
    )
}

/// The evidence of each target of `rows`, where `index` tells the row of a target.
pub open spec fn evidence_by_target(index: Map<Seq<char>, usize>, rows: Seq<ReportRow>) -> Map<
    Seq<char>,
    Evidence,
> {
    Map::new(
        |target: Seq<char>| index.contains_key(target),
        |target: Seq<char>| rows[index[target] as int].evidence,
    )
}

/// Whether `rows` lists `results`: every target of `results` stands in one
/// row and in one only, with its evidence, and no other row is there.
pub open spec fn lists(rows: Seq<ReportRow>, results: Map<Seq<char>, Evidence>) -> bool {
    &&& forall|i: int|
        0 <= i < rows.len() ==> results.contains_key((#[trigger] rows[i]).target@)
            && results[rows[i].target@] == rows[i].evidence
    &&& forall|i: int, j: int|
        0 <= i < j < rows.len() ==> (#[trigger] rows[i]).target@ != (#[trigger] rows[j]).target@
    &&& forall|target: Seq<char>|
        results.contains_key(target) ==> exists|i: int|
            0 <= i < rows.len() && (#[trigger] rows[i]).target@ == target
}

/// The tally of a run.
pub struct Counter {
    ok: usize,
    block: usize,
    err: usize,
    early: usize,
    rows: Vec<ReportRow>,
    index: StringHashMap<usize>,
}

impl Counter {
    /// How many results were reachable targets.
    pub closed spec fn ok_count(&self) -> nat {
        self.ok as nat
    }

    /// How many results were blocked targets.
    pub closed spec fn block_count(&self) -> nat {
        self.block as nat
    }

    /// How many results were inconclusive.
    pub closed spec fn err_count(&self) -> nat {
        self.err as nat
    }

    /// How many of the blocked targets were blocked before any response.
    pub closed spec fn early_count(&self) -> nat {
        self.early as nat
    }

    /// The number of results counted.
    pub open spec fn total_spec(&self) -> nat {
        self.ok_count() + self.block_count() + self.err_count()
    }

    /// The evidence last recorded for each target.
    pub closed spec fn results(&self) -> Map<Seq<char>, Evidence> {
        evidence_by_target(self.index@, self.rows@)
    }

    /// The targets with their evidence, each target in one row.
    pub closed spec fn rows_spec(&self) -> Seq<ReportRow> {
        self.rows@
    }

    /// The tally fits the machine and knows the row of every target.
    pub closed spec fn wf(&self) -> bool {
        &&& self.ok + self.block + self.err <= usize::MAX
        &&& self.early <= self.block
        &&& forall|i: int|
            0 <= i < self.rows.len() ==> self.index@.contains_key((#[trigger] self.rows[i]).target@)
                && self.index@[self.rows[i].target@] == i
        &&& forall|target: Seq<char>| #[trigger]
            self.index@.contains_key(target) ==> self.index@[target] < self.rows.len()
                && self.rows[self.index@[target] as int].target@ == target
    }

    /// A tally of nothing.
    pub fn new() -> (r: Counter)
        ensures
            r.wf(),
            r.total_spec() == 0,
            r.early_count() == 0,
            r.results() == (Map::<Seq<char>, Evidence>::empty()),
            r.rows_spec().len() == 0,
    {
        let r = Counter {
            ok: 0,
            block: 0,
            err: 0,
            early: 0,
            rows: Vec::new(),
            index: StringHashMap::new(),
        };
        assert(r.results() =~= Map::empty());
        r
    }

    /// The number of results counted.
    pub fn total(&self) -> (r: usize)
        requires
            self.wf(),
        ensures
            r == self.total_spec(),
    {
        self.ok + self.block + self.err
    }

    /// Counts one result and records `evidence` for `target`, in place of
    /// what was recorded for that target before.
    pub fn add(&mut self, target: &str, evidence: Evidence)
        requires
            old(self).wf(),
            old(self).total_spec() < usize::MAX,
        ensures
            final(self).wf(),
            final(self).results() == old(self).results().insert(target@, evidence),
            final(self).ok_count() == old(self).ok_count() + if evidence == Evidence::Okay {
                1nat
            } else {
                0nat
            },
            final(self).block_count() == old(self).block_count() + if evidence
                == Evidence::Blocked {
                1nat
            } else {
                0nat
            },
            final(self).err_count() == old(self).err_count() + if evidence == Evidence::ConnectError
                || evidence == Evidence::Error {
                1nat
            } else {
                0nat
            },
            final(self).early_count() == old(self).early_count(),
    {
        match evidence {
            Evidence::Okay => {
                self.ok = self.ok + 1;
            },
            Evidence::Blocked => {
                self.block = self.block + 1;
            },
            Evidence::ConnectError | Evidence::Error => {
                self.err = self.err + 1;
            },
        }
        let ghost index = self.index@;
        let ghost rows = self.rows@;
        let known = match self.index.get(target) {
            Some(at) => Some(*at),
            None => None,
        };
        match known {
            Some(at) => {
                self.rows[at].evidence = evidence;
                assert(self.results() =~= old(self).results().insert(target@, evidence));
            },
            None => {
                self.index.insert(String::from_str(target), self.rows.len());
                self.rows.push(ReportRow { target: String::from_str(target), evidence });
                assert(self.results() =~= old(self).results().insert(target@, evidence));
            },
        }
    }

    /// Counts the outcome of one probe and records its evidence for
    /// `target`; an early block is counted as such.
    pub fn record(&mut self, target: &str, outcome: Outcome)
        requires
            old(self).wf(),
            old(self).total_spec() < usize::MAX,
        ensures
            final(self).wf(),
            final(self).results() == old(self).results().insert(target@, outcome.evidence_spec()),
            final(self).total_spec() == old(self).total_spec() + 1,
            final(self).early_count() == old(self).early_count() + if outcome == (Outcome::Blocked {
                early: true,
            }) {
                1nat
            } else {
                0nat
            },
    {
        self.add(target, outcome.evidence());
        match outcome {
            Outcome::Blocked { early: true } => {
                self.early = self.early + 1;
            },
            _ => {},
        }
    }

    /// How many of the blocked targets were blocked before any response.
    pub fn early(&self) -> (r: usize)
        ensures
            r == self.early_count(),
    {
        self.early
    }

    /// The numbers of reachable, blocked and inconclusive results.
    pub fn counts(&self) -> (r: (usize, usize, usize))
        ensures
            r.0 == self.ok_count(),
            r.1 == self.block_count(),
            r.2 == self.err_count(),
    {
        (self.ok, self.block, self.err)
    }

    /// The targets with their evidence, each target once.
    pub fn rows(&self) -> (r: &Vec<ReportRow>)
        requires
            self.wf(),
        ensures
            r@ == self.rows_spec(),
            lists(r@, self.results()),
    {
        proof {
            self.lemma_rows_list_results();
        }
        &self.rows
    }

    /// The rows of a tally list its results.
    pub proof fn lemma_rows_list_results(&self)
        requires
            self.wf(),
        ensures
            lists(self.rows_spec(), self.results()),
    {
        let rows = self.rows@;
        assert forall|target: Seq<char>| self.results().contains_key(target) implies exists|i: int|
            0 <= i < rows.len() && (#[trigger] rows[i]).target@ == target by {
            assert(rows[self.index@[target] as int].target@ == target);
        }
    }

    /// The evidence recorded for `target`, if any.
    pub fn evidence_of(&self, target: &str) -> (r: Option<Evidence>)
        requires
            self.wf(),
        ensures
            r == if self.results().contains_key(target@) {
                Some(self.results()[target@])
            } else {
                None
            },
    {
        match self.index.get(target) {
            Some(at) => Some(self.rows[*at].evidence),
            None => None,
        }
    }

    /// The lines to show on the console at the given setting: reachable
    /// targets at `All`, blocked ones from `Block` on, targets that could
    /// not be connected to from `Error` on, other failures never.
    pub fn shown(&self, verbosity: Verbosity) -> (r: Vec<String>)
        ensures
            texts(r@) == shown_lines(self.rows_spec(), verbosity),
    {
        let level = verbosity.level();
        let mut out: Vec<String> = Vec::new();
        let mut i: usize = 0;
        assert(texts(out@) =~= shown_lines(self.rows@.take(0), verbosity));
        while i < self.rows.len()
            invariant
                i <= self.rows.len(),
                level == verbosity.level_spec(),
                texts(out@) == shown_lines(self.rows@.take(i as int), verbosity),
            decreases self.rows.len() - i,
        {
            let row = &self.rows[i];
            let tag = match row.evidence {
                Evidence::Okay => if level >= 3 {
                    Some("    [Ok] ")
                } else {
                    None
                },
                Evidence::Blocked => if level >= 2 {
                    Some("    [Blocked] ")
                } else {
                    None
                },
                Evidence::ConnectError => if level >= 1 {
                    Some("    [ConnectError] ")
                } else {
                    None
                },
                Evidence::Error => None,
            };
            let ghost before = texts(out@);
            match tag {
                Some(tag) => {
                    let mut line = String::from_str(tag);
                    line.append(row.target.as_str());
                    out.push(line);
                    assert(texts(out@) =~= before.push(tag@ + row.target@));
                },
                None => {},
            }
            i = i + 1;
            proof {
                let taken = self.rows@.take(i as int);
                assert(taken.drop_last() =~= self.rows@.take(i - 1));
                assert(taken.last() == self.rows[i - 1]);
            }
        }
        assert(self.rows@.take(self.rows.len() as int) =~= self.rows@);
        out
    }

    /// The table to save: the column names `target` and `evidence`, then
    /// one row for each target with the label of its evidence.
    pub fn export(&self) -> (r: Vec<Vec<String>>)
        ensures
            r.len() == self.rows_spec().len() + 1,
            forall|i: int| 0 <= i < r.len() ==> texts((#[trigger] r[i])@) == exported(self.rows_spec())[i],
    {
        let mut out: Vec<Vec<String>> = Vec::new();
        let mut head: Vec<String> = Vec::new();
        head.push(String::from_str("target"));
        head.push(String::from_str("evidence"));
        assert(texts(head@) =~= seq!["target"@, "evidence"@]);
        out.push(head);
        let mut i: usize = 0;
        while i < self.rows.len()
            invariant
                i <= self.rows.len(),
                out.len() == i + 1,
                forall|j: int| 0 <= j < out.len() ==> texts((#[trigger] out[j])@) == exported(self.rows@)[j],
            decreases self.rows.len() - i,
        {
            let row = &self.rows[i];
            let mut cells: Vec<String> = Vec::new();
            cells.push(row.target.clone());
            cells.push(row.evidence.to_string());
            assert(texts(cells@) =~= seq![row.target@, row.evidence.label_spec()]);
            out.push(cells);
            i = i + 1;
        }
        out
    }
}

} // verus!
