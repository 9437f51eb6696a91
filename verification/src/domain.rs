//! Domain names as sequences of labels, and the ancestor relation between them.

use crate::text::{chars_of, texts};
use vstd::prelude::*;
use vstd::string::*;

verus! {

/// The labels of a name: the pieces between its dots, in the order written.
/// A name without a dot is one label, and an empty piece is a label too.
pub open spec fn labels(name: Seq<char>) -> Seq<Seq<char>>
    decreases name.len(),
{
    if name.len() == 0 {
        seq![Seq::empty()]
    } else {
        let init = labels(name.drop_last());
        if name.last() == '.' {
            init.push(Seq::empty())
        } else {
            init.drop_last().push(init.last().push(name.last()))
        }
    }
}

/// The labels of a name from the last to the first: the key under which a
/// name is stored, so that a name's ancestors are the prefixes of its key.
pub open spec fn chunks(name: Seq<char>) -> Seq<Seq<char>> {
    labels(name).reverse()
}

/// The name that a sequence of labels spells.
pub open spec fn joined(labels: Seq<Seq<char>>) -> Seq<char>
    decreases labels.len(),
{
    if labels.len() == 0 {
        Seq::empty()
    } else if labels.len() == 1 {
        labels[0]
    } else {
        joined(labels.drop_last()) + seq!['.'] + labels.last()
    }
}

/// Whether `name` is `ancestor` or a subdomain of it: `name` ends in
/// `ancestor`, and where it is longer, a dot stands before that ending.
pub open spec fn is_under(name: Seq<char>, ancestor: Seq<char>) -> bool {
    name == ancestor || (name.len() > ancestor.len() && name[name.len() - ancestor.len() - 1] == '.'
        && name.skip(name.len() - ancestor.len()) == ancestor)
}

/// A name has at least one label.
pub proof fn lemma_labels_nonempty(name: Seq<char>)
    ensures
        labels(name).len() >= 1,
    decreases name.len(),
{
    if name.len() > 0 {
        lemma_labels_nonempty(name.drop_last());
    }
}

/// The labels of two names written with a dot between them are the labels
/// of the first followed by those of the second.
pub proof fn lemma_labels_of_dotted(a: Seq<char>, b: Seq<char>)
    ensures
        labels(a + seq!['.'] + b) == labels(a) + labels(b),
    decreases b.len(),
{
    let whole = a + seq!['.'] + b;
    if b.len() == 0 {
        assert(whole.drop_last() =~= a);
        assert(labels(a).push(Seq::empty()) =~= labels(a) + labels(b));
    } else {
        let shorter = a + seq!['.'] + b.drop_last();
        assert(whole.drop_last() =~= shorter);
        assert(whole.last() == b.last());
        lemma_labels_of_dotted(a, b.drop_last());
        lemma_labels_nonempty(b.drop_last());
        let x = labels(a);
        let y = labels(b.drop_last());
        if b.last() == '.' {
            assert((x + y).push(Seq::empty()) =~= x + y.push(Seq::empty()));
        } else {
            assert((x + y).drop_last() =~= x + y.drop_last());
            assert((x + y).last() == y.last());
            assert((x + y.drop_last()).push(y.last().push(b.last())) =~= x + y.drop_last().push(
                y.last().push(b.last()),
            ));
        }
    }
}

/// Writing out the labels of a name gives the name back.
pub proof fn lemma_joined_labels(name: Seq<char>)
    ensures
        joined(labels(name)) == name,
    decreases name.len(),
{
    if name.len() == 0 {
    } else {
        let init = labels(name.drop_last());
        lemma_joined_labels(name.drop_last());
        lemma_labels_nonempty(name.drop_last());
        if name.last() == '.' {
            let all = init.push(Seq::empty());
            assert(all.drop_last() =~= init);
            assert(joined(all) =~= name.drop_last() + seq!['.'] + Seq::<char>::empty());
            assert(name =~= name.drop_last() + seq!['.'] + Seq::<char>::empty());
        } else {
            let grown = init.last().push(name.last());
            let all = init.drop_last().push(grown);
            assert(all.drop_last() =~= init.drop_last());
            assert(all.last() == grown);
            if init.len() == 1 {
                assert(joined(all) == grown);
                assert(joined(init) == init[0]);
            } else {
                assert(joined(all) == joined(init.drop_last()) + seq!['.'] + grown);
                assert(joined(init) == joined(init.drop_last()) + seq!['.'] + init.last());
                assert(joined(all) =~= joined(init).push(name.last()));
            }
            assert(name =~= name.drop_last().push(name.last()));
        }
    }
}

/// Two runs of labels written out one after the other are joined by a dot.
pub proof fn lemma_joined_concat(front: Seq<Seq<char>>, back: Seq<Seq<char>>)
    requires
        front.len() > 0,
        back.len() > 0,
    ensures
        joined(front + back) == joined(front) + seq!['.'] + joined(back),
    decreases back.len(),
{
    let all = front + back;
    assert(all.drop_last() =~= front + back.drop_last());
    assert(all.last() == back.last());
    if back.len() == 1 {
        assert(front + back.drop_last() =~= front);
    } else {
        lemma_joined_concat(front, back.drop_last());
        assert(joined(all) =~= joined(front) + seq!['.'] + (joined(back.drop_last()) + seq!['.']
            + back.last()));
    }
}

/// A name is another name or a subdomain of it exactly when the other's
/// labels, read from the last, begin the name's own.
pub proof fn lemma_ancestor_is_key_prefix(name: Seq<char>, ancestor: Seq<char>)
    ensures
        chunks(ancestor).is_prefix_of(chunks(name)) <==> is_under(name, ancestor),
{
    let ln = labels(name);
    let la = labels(ancestor);
    lemma_labels_nonempty(name);
    lemma_labels_nonempty(ancestor);
    lemma_joined_labels(name);
    lemma_joined_labels(ancestor);
    if is_under(name, ancestor) {
        if name != ancestor {
            let cut = name.len() - ancestor.len();
            let front = name.take(cut - 1);
            assert(name =~= front + seq!['.'] + ancestor);
            lemma_labels_of_dotted(front, ancestor);
            let lf = labels(front);
            assert(ln == lf + la);
            assert(la.reverse() =~= ln.reverse().subrange(0, la.len() as int));
        } else {
            assert(chunks(name).subrange(0, ln.len() as int) =~= chunks(name));
        }
    }
    if chunks(ancestor).is_prefix_of(chunks(name)) {
        let extra = ln.len() - la.len();
        let front = ln.take(extra);
        assert(la.reverse() == ln.reverse().subrange(0, la.len() as int));
        assert forall|i: int| 0 <= i < la.len() implies la[i] == ln[extra + i] by {
            let j = la.len() - 1 - i;
            assert(la.reverse()[j] == la[i]);
            assert(ln.reverse().subrange(0, la.len() as int)[j] == ln[extra + i]);
        }
        assert(ln =~= front + la);
        if extra == 0 {
            assert(ln =~= la);
        } else {
            lemma_joined_concat(front, la);
            let head = joined(front);
            assert(name == head + seq!['.'] + ancestor);
            assert(name.skip(name.len() - ancestor.len()) =~= ancestor);
        }
    }
}

/// Of two ancestors of one name, the one with fewer labels is the shorter
/// and an ancestor of the other.
pub proof fn lemma_ancestors_nest(name: Seq<char>, a: Seq<char>, b: Seq<char>)
    requires
        is_under(name, a),
        is_under(name, b),
        chunks(a).len() <= chunks(b).len(),
    ensures
        is_under(b, a),
        a.len() <= b.len(),
{
    lemma_ancestor_is_key_prefix(name, a);
    lemma_ancestor_is_key_prefix(name, b);
    lemma_ancestor_is_key_prefix(b, a);
    assert(chunks(a) =~= chunks(b).subrange(0, chunks(a).len() as int));
}

/// Splits a name at its dots.
pub fn domain_labels(domain: &str) -> (r: Vec<String>)
    ensures
        texts(r@) == labels(domain@),
{
    let chars = chars_of(domain);
    let n = chars.len();
    let mut out: Vec<String> = Vec::new();
    let mut start: usize = 0;
    let mut i: usize = 0;
    assert(domain@.take(0) =~= Seq::<char>::empty());
    assert(labels(domain@.take(0)) =~= texts(out@).push(domain@.subrange(0, 0)));
    while i < n
        invariant
            start <= i <= n == chars.len(),
            chars@ == domain@,
            labels(domain@.take(i as int)) == texts(out@).push(
                domain@.subrange(start as int, i as int),
            ),
        decreases n - i,
    {
        let ghost done = texts(out@);
        let ghost current = domain@.subrange(start as int, i as int);
        let ghost longer = domain@.take(i + 1);
        proof {
            assert(longer.drop_last() =~= domain@.take(i as int));
            assert(longer.last() == chars[i as int]);
            assert(done.push(current).drop_last() =~= done);
        }
        if chars[i] == '.' {
            out.push(String::from_str(domain.substring_char(start, i)));
            start = i + 1;
            proof {
                assert(texts(out@) =~= done.push(current));
                assert(domain@.subrange(start as int, i + 1) =~= Seq::<char>::empty());
            }
        } else {
            proof {
                assert(domain@.subrange(start as int, i + 1) =~= current.push(chars[i as int]));
            }
        }
        i = i + 1;
    }
    let ghost done = texts(out@);
    out.push(String::from_str(domain.substring_char(start, n)));
    proof {
        assert(domain@.take(n as int) =~= domain@);
        assert(texts(out@) =~= done.push(domain@.subrange(start as int, n as int)));
    }
    out
}

/// The key of a name: its labels from the last to the first.
pub fn domain_chunks(domain: &str) -> (r: Vec<String>)
    ensures
        texts(r@) == chunks(domain@),
        r.len() > 0,
{
    let mut rest = domain_labels(domain);
    let ghost all = texts(rest@);
    proof {
        lemma_labels_nonempty(domain@);
    }
    let mut out: Vec<String> = Vec::new();
    assert(texts(out@) =~= all.reverse().take(0));
    while rest.len() > 0
        invariant
            rest.len() + out.len() == all.len(),
            texts(rest@) == all.take(rest.len() as int),
            texts(out@) == all.reverse().take(out.len() as int),
        decreases rest.len(),
    {
        let ghost before = texts(out@);
        let ghost held = rest@;
        let label = rest.pop().unwrap();
        out.push(label);
        proof {
            assert(texts(held)[held.len() - 1] == label@);
            assert(texts(rest@) =~= all.take(rest.len() as int));
            assert(texts(out@) =~= before.push(label@));
            assert(texts(out@) =~= all.reverse().take(out.len() as int));
        }
    }
    assert(all.reverse().take(all.len() as int) =~= all.reverse());
    out
}

} // verus!
