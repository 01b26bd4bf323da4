//! The templating combinator: filter an ordered collection by a conjunction
//! of predicates, map each surviving element to text, join the pieces with
//! an optional separator and optionally re-indent the result.

use vstd::prelude::*;

use crate::text::{indent, indent_text, lemma_indent_pads_breaks, lines_of, pad_breaks};

verus! {

/// `parts` in order, `sep` between each two neighbours.
pub open spec fn join(parts: Seq<Seq<char>>, sep: Seq<char>) -> Seq<char>
    decreases parts.len(),
{
    if parts.len() == 0 {
        Seq::empty()
    } else if parts.len() == 1 {
        parts[0]
    } else {
        join(parts.drop_last(), sep) + sep + parts.last()
    }
}

/// The text of an optional separator; an absent one is empty.
pub open spec fn separator(sep: Option<&str>) -> Seq<char> {
    match sep {
        Some(s) => s@,
        None => Seq::empty(),
    }
}

/// The fragments of the elements that passed, in order; an element that was
/// skipped has `None` as its outcome.
pub open spec fn kept(outcomes: Seq<Option<String>>) -> Seq<Seq<char>>
    decreases outcomes.len(),
{
    if outcomes.len() == 0 {
        Seq::empty()
    } else {
        let rest = kept(outcomes.drop_last());
        match outcomes.last() {
            Some(s) => rest.push(s@),
            None => rest,
        }
    }
}

/// The joined text, re-indented where a width above zero is given.
pub open spec fn finish(joined: Seq<char>, width: Option<usize>) -> Seq<char> {
    match width {
        Some(w) => if w > 0 {
            indent_text(w as nat, joined)
        } else {
            joined
        },
        None => joined,
    }
}

/// Every predicate returned true on `x`.
pub open spec fn all_hold<T, P: Fn(&T) -> bool>(preds: Seq<P>, x: &T) -> bool {
    forall|j: int| 0 <= j < preds.len() ==> #[trigger] preds[j].ensures((x,), true)
}

/// Some predicate returned false on `x`.
pub open spec fn one_fails<T, P: Fn(&T) -> bool>(preds: Seq<P>, x: &T) -> bool {
    exists|j: int| 0 <= j < preds.len() && #[trigger] preds[j].ensures((x,), false)
}

/// `o` is a possible outcome for the element `x`: its fragment, as the
/// mapper gave it, where every predicate held; `None` where one failed.
pub open spec fn outcome_of<T, P: Fn(&T) -> bool, M: Fn(&T) -> String>(
    preds: Seq<P>,
    map: M,
    x: &T,
    o: Option<String>,
) -> bool {
    match o {
        Some(s) => all_hold(preds, x) && map.ensures((x,), s),
        None => one_fails(preds, x),
    }
}

/// `outcomes` holds one possible outcome for each of `items`, in order.
pub open spec fn outcomes_of<T, P: Fn(&T) -> bool, M: Fn(&T) -> String>(
    items: Seq<T>,
    preds: Seq<P>,
    map: M,
    outcomes: Seq<Option<String>>,
) -> bool {
    &&& outcomes.len() == items.len()
    &&& forall|i: int|
        0 <= i < items.len() ==> outcome_of(preds, map, &items[i], #[trigger] outcomes[i])
}

/// `r` is what `template` may return: the fragments of the passing elements,
/// joined by `sep`, then re-indented to `width`.
pub open spec fn renders<T, P: Fn(&T) -> bool, M: Fn(&T) -> String>(
    r: Seq<char>,
    items: Seq<T>,
    preds: Seq<P>,
    sep: Seq<char>,
    width: Option<usize>,
    map: M,
) -> bool {
    exists|outcomes: Seq<Option<String>>|
        outcomes_of(items, preds, map, outcomes) && r == finish(
            join(#[trigger] kept(outcomes), sep),
            width,
        )
}

/// An empty list of predicates, typed after `_like`; it lets a caller whose
/// predicates are closures pass none.
pub(crate) fn no_predicates<T, P: Fn(&T) -> bool>(_like: &P) -> (r: Vec<P>)
    ensures
        r@.len() == 0,
{
    Vec::new()
}

/// Filters `items` by every predicate of `preds` (in order, stopping at the
/// first that fails), maps each element that passes with `map`, joins the
/// fragments with `sep` and, for a width above zero, re-indents the result.
pub fn template<T, P: Fn(&T) -> bool, M: Fn(&T) -> String>(
    items: &Vec<T>,
    preds: &Vec<P>,
    sep: Option<&str>,
    width: Option<usize>,
    map: M,
) -> (r: String)
    requires
        forall|i: int, j: int|
            0 <= i < items.len() && 0 <= j < preds.len() ==> preds[j].requires((&items[i],)),
        forall|i: int| 0 <= i < items.len() ==> map.requires((&items[i],)),
    ensures
        renders(r@, items@, preds@, separator(sep), width, map),
{
    let mut s = String::new();
    let mut stitch = false;
    let ghost mut outcomes: Seq<Option<String>> = Seq::empty();
    let mut i: usize = 0;
    while i < items.len()
        invariant
            i <= items.len(),
            forall|i: int, j: int|
                0 <= i < items.len() && 0 <= j < preds.len() ==> preds[j].requires((&items[i],)),
            forall|i: int| 0 <= i < items.len() ==> map.requires((&items[i],)),
            outcomes.len() == i,
            forall|k: int|
                0 <= k < i ==> outcome_of(preds@, map, &items@[k], #[trigger] outcomes[k]),
            s@ == join(kept(outcomes), separator(sep)),
            stitch == (kept(outcomes).len() > 0),
        decreases items.len() - i,
    {
        let x = &items[i];
        let mut pass = true;
        let mut j: usize = 0;
        while pass && j < preds.len()
            invariant
                j <= preds.len(),
                forall|j: int| 0 <= j < preds.len() ==> preds[j].requires((x,)),
                pass ==> forall|jj: int| 0 <= jj < j ==> #[trigger] preds[jj].ensures((x,), true),
                !pass ==> one_fails(preds@, x),
            decreases preds.len() - j,
        {
            let p = &preds[j];
            if !p(x) {
                pass = false;
            }
            j = j + 1;
        }
        let ghost before = outcomes;
        if pass {
            if stitch {
                match sep {
                    Some(t) => s.append(t),
                    None => {},
                }
            }
            stitch = true;
            let frag = map(x);
            s.append(frag.as_str());
            proof {
                outcomes = outcomes.push(Some(frag));
                assert(outcomes.drop_last() =~= before);
                let k = kept(before);
                assert(kept(outcomes) == k.push(frag@));
                assert(k.push(frag@).drop_last() =~= k);
                if k.len() == 0 {
                    assert(s@ =~= join(k.push(frag@), separator(sep)));
                }
            }
        } else {
            proof {
                outcomes = outcomes.push(None);
            }
        }
        assert(outcomes.drop_last() =~= before);
        i = i + 1;
    }
    assert(outcomes_of(items@, preds@, map, outcomes));
    match width {
        Some(w) => {
            if w > 0 {
                s = indent(w, s.as_str());
            }
        },
        None => {},
    }
    s
}

/// With no predicates every element passes: where the mapper's result is
/// `f` of its argument, the fragments kept are `f` of every element, in order.
proof fn lemma_kept_all<T, P: Fn(&T) -> bool, M: Fn(&T) -> String>(
    items: Seq<T>,
    preds: Seq<P>,
    map: M,
    outcomes: Seq<Option<String>>,
    f: spec_fn(T) -> Seq<char>,
)
    requires
        preds.len() == 0,
        outcomes_of(items, preds, map, outcomes),
        forall|x: &T, s: String| map.ensures((x,), s) ==> s@ == f(*x),
    ensures
        kept(outcomes) == items.map_values(f),
    decreases items.len(),
{
    if items.len() > 0 {
        let n = items.len() - 1;
        assert forall|i: int| 0 <= i < n implies outcome_of(
            preds,
            map,
            &items.drop_last()[i],
            #[trigger] outcomes.drop_last()[i],
        ) by {
            assert(outcome_of(preds, map, &items[i], outcomes[i]));
        }
        lemma_kept_all(items.drop_last(), preds, map, outcomes.drop_last(), f);
        assert(outcome_of(preds, map, &items[n], outcomes[n]));
        assert(outcomes[n] is Some);
        assert(items.map_values(f) =~= items.drop_last().map_values(f).push(f(items.last())));
    } else {
        assert(items.map_values(f) =~= Seq::empty());
    }
}

/// With no predicates, the output is the fragments of all the elements, in
/// their order, joined and then re-indented: for a mapper whose result is
/// `f` of its argument, `f` of every element.
pub proof fn lemma_unfiltered<T, P: Fn(&T) -> bool, M: Fn(&T) -> String>(
    r: Seq<char>,
    items: Seq<T>,
    preds: Seq<P>,
    sep: Seq<char>,
    width: Option<usize>,
    map: M,
    f: spec_fn(T) -> Seq<char>,
)
    requires
        preds.len() == 0,
        renders(r, items, preds, sep, width, map),
        forall|x: &T, s: String| map.ensures((x,), s) ==> s@ == f(*x),
    ensures
        r == finish(join(items.map_values(f), sep), width),
{
    let outcomes = choose|outcomes: Seq<Option<String>>|
        outcomes_of(items, preds, map, outcomes) && r == finish(
            join(#[trigger] kept(outcomes), sep),
            width,
        );
    lemma_kept_all(items, preds, map, outcomes, f);
}

/// Where every outcome is a skip, nothing is kept.
proof fn lemma_none_kept(outcomes: Seq<Option<String>>)
    requires
        forall|i: int| 0 <= i < outcomes.len() ==> #[trigger] outcomes[i] is None,
    ensures
        kept(outcomes) == Seq::<Seq<char>>::empty(),
    decreases outcomes.len(),
{
    if outcomes.len() > 0 {
        let rest = outcomes.drop_last();
        assert forall|i: int| 0 <= i < rest.len() implies #[trigger] rest[i] is None by {
            assert(outcomes[i] is None);
        }
        lemma_none_kept(rest);
        assert(outcomes[outcomes.len() - 1] is None);
    }
}

/// Finishing empty text gives empty text.
proof fn lemma_finish_empty(width: Option<usize>)
    ensures
        finish(Seq::empty(), width) == Seq::<char>::empty(),
{
    assert(lines_of(Seq::<char>::empty()) =~= Seq::empty());
}

/// An empty collection renders to the empty string, whatever the
/// predicates, separator and width.
pub proof fn lemma_empty_input<T, P: Fn(&T) -> bool, M: Fn(&T) -> String>(
    r: Seq<char>,
    preds: Seq<P>,
    sep: Seq<char>,
    width: Option<usize>,
    map: M,
)
    requires
        renders(r, Seq::<T>::empty(), preds, sep, width, map),
    ensures
        r == Seq::<char>::empty(),
{
    let outcomes = choose|outcomes: Seq<Option<String>>|
        outcomes_of(Seq::<T>::empty(), preds, map, outcomes) && r == finish(
            join(#[trigger] kept(outcomes), sep),
            width,
        );
    lemma_none_kept(outcomes);
    lemma_finish_empty(width);
}

/// A predicate that never returns true leaves nothing to render: the
/// output is the empty string.
pub proof fn lemma_rejecting_predicate<T, P: Fn(&T) -> bool, M: Fn(&T) -> String>(
    r: Seq<char>,
    items: Seq<T>,
    preds: Seq<P>,
    sep: Seq<char>,
    width: Option<usize>,
    map: M,
    j: int,
)
    requires
        0 <= j < preds.len(),
        forall|x: &T, b: bool| preds[j].ensures((x,), b) ==> !b,
        renders(r, items, preds, sep, width, map),
    ensures
        r == Seq::<char>::empty(),
{
    let outcomes = choose|outcomes: Seq<Option<String>>|
        outcomes_of(items, preds, map, outcomes) && r == finish(
            join(#[trigger] kept(outcomes), sep),
            width,
        );
    assert forall|i: int| 0 <= i < outcomes.len() implies #[trigger] outcomes[i] is None by {
        assert(outcome_of(preds, map, &items[i], outcomes[i]));
        if outcomes[i] is Some {
            assert(preds[j].ensures((&items[i],), true));
        }
    }
    lemma_none_kept(outcomes);
    lemma_finish_empty(width);
}

/// A predicate that always returns true, put before another, changes
/// nothing: the outputs possible with both are those possible with the
/// other alone.
pub proof fn lemma_accepting_predicate<T, P: Fn(&T) -> bool, M: Fn(&T) -> String>(
    r: Seq<char>,
    items: Seq<T>,
    always: P,
    p: P,
    sep: Seq<char>,
    width: Option<usize>,
    map: M,
)
    requires
        forall|x: &T| always.ensures((x,), true),
        forall|x: &T, b: bool| always.ensures((x,), b) ==> b,
    ensures
        renders(r, items, seq![always, p], sep, width, map) <==> renders(
            r,
            items,
            seq![p],
            sep,
            width,
            map,
        ),
{
    let both = seq![always, p];
    let one = seq![p];
    assert forall|x: &T, o: Option<String>|
        outcome_of(both, map, x, o) <==> outcome_of(one, map, x, o) by {
        if all_hold(one, x) {
            assert(always.ensures((x,), true));
            assert(one[0].ensures((x,), true));
            assert forall|j: int| 0 <= j < both.len() implies #[trigger] both[j].ensures(
                (x,),
                true,
            ) by {
                if j == 0 {
                    assert(both[0] == always);
                } else {
                    assert(both[1] == p);
                }
            }
        }
        if all_hold(both, x) {
            assert(both[1] == p);
            assert(one[0] == p);
        }
        if one_fails(both, x) {
            let j = choose|j: int| 0 <= j < both.len() && #[trigger] both[j].ensures((x,), false);
            assert(j == 1);
            assert(one[0].ensures((x,), false));
        }
        if one_fails(one, x) {
            assert(one[0] == p);
            assert(both[1].ensures((x,), false));
        }
    }
    if renders(r, items, both, sep, width, map) {
        let outcomes = choose|outcomes: Seq<Option<String>>|
            outcomes_of(items, both, map, outcomes) && r == finish(
                join(#[trigger] kept(outcomes), sep),
                width,
            );
        assert(outcomes_of(items, one, map, outcomes));
    }
    if renders(r, items, one, sep, width, map) {
        let outcomes = choose|outcomes: Seq<Option<String>>|
            outcomes_of(items, one, map, outcomes) && r == finish(
                join(#[trigger] kept(outcomes), sep),
                width,
            );
        assert(outcomes_of(items, both, map, outcomes));
    }
}

/// How often `c` occurs in `s`.
pub open spec fn occurrences(s: Seq<char>, c: char) -> nat
    decreases s.len(),
{
    if s.len() == 0 {
        0
    } else {
        occurrences(s.drop_last(), c) + if s.last() == c {
            1nat
        } else {
            0nat
        }
    }
}

/// How often `c` occurs in all of `parts` together.
pub open spec fn total_occurrences(parts: Seq<Seq<char>>, c: char) -> nat
    decreases parts.len(),
{
    if parts.len() == 0 {
        0
    } else {
        total_occurrences(parts.drop_last(), c) + occurrences(parts.last(), c)
    }
}

proof fn lemma_occurrences_concat(a: Seq<char>, b: Seq<char>, c: char)
    ensures
        occurrences(a + b, c) == occurrences(a, c) + occurrences(b, c),
    decreases b.len(),
{
    if b.len() > 0 {
        assert((a + b).drop_last() =~= a + b.drop_last());
        lemma_occurrences_concat(a, b.drop_last(), c);
    } else {
        assert(a + b =~= a);
    }
}

/// Joining puts the separator between each two neighbours and nowhere else.
/// Of any character, the joined text holds the parts' occurrences and those
/// of the separator once per pair of neighbours; so for a character that
/// the separator holds once and no part holds, one fewer than there are
/// parts. One part or none is left as it is, with no separator.
pub proof fn lemma_separator_count(parts: Seq<Seq<char>>, sep: Seq<char>, c: char)
    ensures
        parts.len() > 0 ==> occurrences(join(parts, sep), c) == total_occurrences(parts, c) + (
        parts.len() - 1) * occurrences(sep, c),
        parts.len() == 0 ==> join(parts, sep) == Seq::<char>::empty(),
        parts.len() == 1 ==> join(parts, sep) == parts[0],
    decreases parts.len(),
{
    if parts.len() > 1 {
        let rest = parts.drop_last();
        lemma_separator_count(rest, sep, c);
        lemma_occurrences_concat(join(rest, sep), sep, c);
        lemma_occurrences_concat(join(rest, sep) + sep, parts.last(), c);
        let k = occurrences(sep, c);
        let n = rest.len() as int;
        assert(join(parts, sep) == join(rest, sep) + sep + parts.last());
        assert(total_occurrences(parts, c) == total_occurrences(rest, c) + occurrences(
            parts.last(),
            c,
        ));
        assert((n - 1) * k + k == n * k) by (nonlinear_arith);
        assert(parts.len() - 1 == n);
    } else if parts.len() == 1 {
        assert(parts.drop_last().len() == 0);
        assert(parts.last() == parts[0]);
        assert(total_occurrences(parts.drop_last(), c) == 0);
        assert((parts.len() - 1) * occurrences(sep, c) == 0);
    }
}

/// Without a width, or with width zero, the joined text is left as it is;
/// with a width above zero, that many spaces follow every line feed of the
/// joined lines but the last, and none precede the first line.
pub proof fn lemma_width(joined: Seq<char>, width: Option<usize>)
    ensures
        width is None ==> finish(joined, width) == joined,
        width == Some(0usize) ==> finish(joined, width) == joined,
        forall|n: usize|
            n > 0 && width == Some(n) ==> finish(joined, width) == pad_breaks(
                indent_text(0, joined),
                n as nat,
            ),
{
    if let Some(n) = width {
        lemma_indent_pads_breaks(n as nat, joined);
    }
}

} // verus!
