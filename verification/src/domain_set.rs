//! A set of domain names that answers which of its names is an ancestor of
//! a given name, kept in a `trie_rs::map::Trie` keyed by reversed labels.

use crate::domain::{
    chunks, domain_chunks, is_under, labels, lemma_ancestor_is_key_prefix, lemma_ancestors_nest,
    lemma_joined_labels,
};
use crate::text::texts;
use vstd::prelude::*;
use vstd::string::*;

verus! {

/// `trie_rs::map::Trie`, a trie from sequences of labels to values; nothing
/// is known of a trie but what `trie_words` says it holds.
#[verifier::external_type_specification]
#[verifier::external_body]
#[verifier::reject_recursive_types(Label)]
#[verifier::reject_recursive_types(Value)]
pub struct ExTrie<Label, Value>(trie_rs::map::Trie<Label, Value>);

/// The words of a trie: each key it holds, with the text stored under it.
pub uninterp spec fn trie_words(trie: trie_rs::map::Trie<String, String>) -> Map<
    Seq<Seq<char>>,
    Seq<char>,
>;

/// The map that holds every pair of `pairs`, a later pair taking the place
/// of an earlier one with the same key.
pub open spec fn collected(pairs: Seq<(Seq<Seq<char>>, Seq<char>)>) -> Map<
    Seq<Seq<char>>,
    Seq<char>,
>
    decreases pairs.len(),
{
    if pairs.len() == 0 {
        Map::empty()
    } else {
        collected(pairs.drop_last()).insert(pairs.last().0, pairs.last().1)
    }
}

/// The texts of a sequence of keys with their values.
pub open spec fn pair_texts(pairs: Seq<(Vec<String>, String)>) -> Seq<(Seq<Seq<char>>, Seq<char>)> {
    pairs.map_values(|p: (Vec<String>, String)| (texts(p.0@), p.1@))
}

/// Whether `words` holds a key that begins `query`.
pub open spec fn has_prefix_key(words: Map<Seq<Seq<char>>, Seq<char>>, query: Seq<Seq<char>>) -> bool {
    exists|key: Seq<Seq<char>>| words.contains_key(key) && #[trigger] key.is_prefix_of(query)
}

/// Whether `key` is the shortest key of `words` that begins `query`.
pub open spec fn is_shortest_prefix_key(
    words: Map<Seq<Seq<char>>, Seq<char>>,
    query: Seq<Seq<char>>,
    key: Seq<Seq<char>>,
) -> bool {
    &&& words.contains_key(key)
    &&& key.is_prefix_of(query)
    &&& forall|other: Seq<Seq<char>>|
        words.contains_key(other) && #[trigger] other.is_prefix_of(query) ==> key.len()
            <= other.len()
}

/// `Trie::from_iter`: the trie that holds the pairs handed in, put in one
/// after the other, so that of two pairs with one key the later stays. The
/// outside code cannot store a value under the empty key.
#[verifier::external_body]
fn trie_from_pairs(pairs: Vec<(Vec<String>, String)>) -> (r: trie_rs::map::Trie<String, String>)
    requires
        forall|i: int| 0 <= i < pairs.len() ==> (#[trigger] pairs[i]).0.len() > 0,
    ensures
        trie_words(r) == collected(pair_texts(pairs@)),
{
    pairs.into_iter().collect()
}

/// `Trie::common_prefix_search`, the first pair it yields: the shortest key
/// of the trie that begins `query`, with the text stored under it, and
/// `None` where no key of the trie begins `query`.
#[verifier::external_body]
fn trie_first_prefix(trie: &trie_rs::map::Trie<String, String>, query: &Vec<String>) -> (r: Option<
    (Vec<String>, String),
>)
    ensures
        match r {
            Some((key, word)) => is_shortest_prefix_key(
                trie_words(*trie),
                texts(query@),
                texts(key@),
            ) && trie_words(*trie)[texts(key@)] == word@,
            None => !has_prefix_key(trie_words(*trie), texts(query@)),
        },
{
    trie.common_prefix_search(query).next().map(
        |(key, word): (Vec<String>, &String)| (key, word.clone()),
    )
}

/// A set of domain names.
pub struct DomainSet {
    trie: trie_rs::map::Trie<String, String>,
}

impl DomainSet {
    /// The keys of the set, each with the name stored under it.
    pub closed spec fn words(&self) -> Map<Seq<Seq<char>>, Seq<char>> {
        trie_words(self.trie)
    }

    /// Every name is stored under its own key.
    pub open spec fn wf(&self) -> bool {
        forall|key: Seq<Seq<char>>| #[trigger]
            self.words().contains_key(key) ==> chunks(self.words()[key]) == key
    }

    /// The names of the set.
    pub open spec fn domains(&self) -> Set<Seq<char>> {
        Set::new(|name: Seq<char>| self.words().contains_key(chunks(name)))
    }

    /// The set of the names in `lines`, each line taken as one name.
    pub fn from_lines(lines: &Vec<String>) -> (r: DomainSet)
        ensures
            r.wf(),
            r.domains() == texts(lines@).to_set(),
    {
        let mut pairs: Vec<(Vec<String>, String)> = Vec::new();
        let mut i: usize = 0;
        assert(pair_texts(pairs@) =~= named_pairs(texts(lines@).take(0)));
        while i < lines.len()
            invariant
                i <= lines.len(),
                pair_texts(pairs@) == named_pairs(texts(lines@).take(i as int)),
                forall|j: int| 0 <= j < pairs.len() ==> (#[trigger] pairs[j]).0.len() > 0,
            decreases lines.len() - i,
        {
            let ghost before = pair_texts(pairs@);
            let key = domain_chunks(lines[i].as_str());
            pairs.push((key, lines[i].clone()));
            i = i + 1;
            proof {
                let names = texts(lines@);
                assert(names.take(i as int) =~= names.take(i - 1).push(names[i - 1]));
                assert(pair_texts(pairs@) =~= before.push((chunks(names[i - 1]), names[i - 1])));
                assert(pair_texts(pairs@) =~= named_pairs(names.take(i as int)));
            }
        }
        let r = DomainSet { trie: trie_from_pairs(pairs) };
        proof {
            let names = texts(lines@);
            assert(names.take(lines.len() as int) =~= names);
            lemma_collected_names(names);
            assert forall|name: Seq<char>| r.domains().contains(name) <==> names.to_set().contains(
                name,
            ) by {
                if r.domains().contains(name) {
                    let held = r.words()[chunks(name)];
                    lemma_chunks_injective(held, name);
                }
            }
            assert(r.domains() =~= names.to_set());
        }
        r
    }

    /// The entry of the set that `domain` falls under: the entry that is
    /// `domain` itself or an ancestor of it. Where several entries are, the
    /// one with the fewest labels is returned, which is the shortest.
    pub fn find_ancestor(&self, domain: &str) -> (r: Option<String>)
        requires
            self.wf(),
        ensures
            r is Some <==> exists|entry: Seq<char>|
                self.domains().contains(entry) && is_under(domain@, entry),
            match r {
                Some(entry) => is_broadest_ancestor(self.domains(), domain@, entry@),
                None => forall|entry: Seq<char>|
                    self.domains().contains(entry) ==> !is_under(domain@, entry),
            },
    {
        let query = domain_chunks(domain);
        let found = trie_first_prefix(&self.trie, &query);
        match found {
            Some((key, word)) => {
                proof {
                    lemma_ancestor_is_key_prefix(domain@, word@);
                    assert(self.domains().contains(word@) && is_under(domain@, word@));
                    assert forall|entry: Seq<char>|
                        self.domains().contains(entry) && is_under(
                            domain@,
                            entry,
                        ) implies word@.len() <= entry.len() by {
                        lemma_ancestor_is_key_prefix(domain@, entry);
                        assert(chunks(entry).is_prefix_of(chunks(domain@)));
                        lemma_ancestors_nest(domain@, word@, entry);
                    }
                }
                Some(word)
            },
            None => {
                proof {
                    assert forall|entry: Seq<char>| self.domains().contains(entry) implies !is_under(
                        domain@,
                        entry,
                    ) by {
                        lemma_ancestor_is_key_prefix(domain@, entry);
                        if is_under(domain@, entry) {
                            assert(chunks(entry).is_prefix_of(chunks(domain@)));
                        }
                    }
                }
                None
            },
        }
    }
}

/// Whether `entry` is a name of `domains` that `name` falls under, and no
/// name of `domains` that `name` falls under is shorter.
pub open spec fn is_broadest_ancestor(domains: Set<Seq<char>>, name: Seq<char>, entry: Seq<char>) -> bool {
    &&& domains.contains(entry)
    &&& is_under(name, entry)
    &&& forall|other: Seq<char>|
        domains.contains(other) && #[trigger] is_under(name, other) ==> entry.len() <= other.len()
}

/// Each name with the key it is stored under.
pub open spec fn named_pairs(names: Seq<Seq<char>>) -> Seq<(Seq<Seq<char>>, Seq<char>)> {
    names.map_values(|name: Seq<char>| (chunks(name), name))
}

/// Names with the same key are the same name.
pub proof fn lemma_chunks_injective(a: Seq<char>, b: Seq<char>)
    requires
        chunks(a) == chunks(b),
    ensures
        a == b,
{
    let la = labels(a);
    let lb = labels(b);
    assert(la.len() == lb.len()) by {
        assert(la.reverse().len() == la.len());
        assert(lb.reverse().len() == lb.len());
    }
    assert forall|i: int| 0 <= i < la.len() implies la[i] == lb[i] by {
        assert(la.reverse()[la.len() - 1 - i] == la[i]);
        assert(lb.reverse()[lb.len() - 1 - i] == lb[i]);
    }
    assert(la =~= lb);
    lemma_joined_labels(a);
    lemma_joined_labels(b);
}

/// The map collected from names stored under their keys holds exactly those
/// names, each under its own key.
pub proof fn lemma_collected_names(names: Seq<Seq<char>>)
    ensures
        forall|key: Seq<Seq<char>>| #[trigger]
            collected(named_pairs(names)).contains_key(key) ==> chunks(
                collected(named_pairs(names))[key],
            ) == key && names.contains(collected(named_pairs(names))[key]),
        forall|i: int|
            0 <= i < names.len() ==> collected(named_pairs(names)).contains_key(
                chunks(#[trigger] names[i]),
            ),
    decreases names.len(),
{
    let pairs = named_pairs(names);
    if names.len() > 0 {
        let shorter = names.drop_last();
        lemma_collected_names(shorter);
        assert(pairs.drop_last() =~= named_pairs(shorter));
        assert(pairs.last() == (chunks(names.last()), names.last()));
        let before = collected(named_pairs(shorter));
        let after = collected(pairs);
        assert(after == before.insert(chunks(names.last()), names.last()));
        assert forall|key: Seq<Seq<char>>| #[trigger] after.contains_key(key) implies chunks(
            after[key],
        ) == key && names.contains(after[key]) by {
            if key == chunks(names.last()) {
                assert(names[names.len() - 1] == names.last());
            } else {
                assert(before.contains_key(key));
                let at = choose|j: int| 0 <= j < shorter.len() && shorter[j] == before[key];
                assert(names[at] == before[key]);
            }
        }
        assert forall|i: int| 0 <= i < names.len() implies after.contains_key(
            chunks(#[trigger] names[i]),
        ) by {
            if i < names.len() - 1 {
                assert(shorter[i] == names[i]);
            }
        }
    }
}

} // verus!
