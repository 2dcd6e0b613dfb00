//! The small grammar of parenthesised pairs that the variable lists of
//! quantifiers and the argument lists of congruence explanations are written
//! in.

use crate::items::{pair_views, VarNames, VarNamesView};
use crate::text::{copy_range, ends_with, split, split_line, starts_with, views};
use vstd::prelude::*;

verus! {

/// The byte `(`.
pub const OPEN: u8 = 40;

/// The byte `)`.
pub const CLOSE: u8 = 41;

/// The byte `;`.
pub const SEMICOLON: u8 = 59;

/// The byte `|`.
pub const BAR: u8 = 124;

/// The three ways in which a pair is written: `(A;B)` in one token, `(A B)` in
/// two, `(A ; B)` in three.
#[derive(Debug, Clone, Copy, PartialEq, Eq, Structural)]
pub enum TupleForm {
    Joined,
    Spaced,
    Separated,
}

/// Whether a token is the lone semicolon that separates parts of a payload.
pub open spec fn is_semicolon(t: Seq<u8>) -> bool {
    t.len() == 1 && t[0] == SEMICOLON
}

/// The form in which the pair at the head of a non-empty list is written.
pub open spec fn form_of(tokens: Seq<Seq<u8>>) -> TupleForm {
    if ends_with(tokens[0], CLOSE) {
        TupleForm::Joined
    } else if tokens.len() >= 2 && is_semicolon(tokens[1]) {
        TupleForm::Separated
    } else {
        TupleForm::Spaced
    }
}

/// How many tokens a pair takes in each form.
pub open spec fn width(form: TupleForm) -> int {
    match form {
        TupleForm::Joined => 1,
        TupleForm::Spaced => 2,
        TupleForm::Separated => 3,
    }
}

/// The two halves of the pair at the head of the list, brackets still on.
pub open spec fn halves(tokens: Seq<Seq<u8>>, form: TupleForm) -> Option<(Seq<u8>, Seq<u8>)> {
    if tokens.len() < width(form) {
        None
    } else {
        match form {
            TupleForm::Joined => {
                let pieces = split(tokens[0], SEMICOLON);
                if pieces.len() >= 2 {
                    Some((pieces[0], pieces[1]))
                } else {
                    None
                }
            },
            TupleForm::Spaced => Some((tokens[0], tokens[1])),
            TupleForm::Separated => Some((tokens[0], tokens[2])),
        }
    }
}

/// The pair at the head of a non-empty list, if it is written in the given
/// form, opens with `(` and closes with `)`.
pub open spec fn head_tuple(tokens: Seq<Seq<u8>>, form: TupleForm) -> Option<(Seq<u8>, Seq<u8>)> {
    if form_of(tokens) != form {
        None
    } else {
        match halves(tokens, form) {
            Some((first, second)) => if starts_with(first, OPEN) && ends_with(second, CLOSE) {
                Some((first.skip(1), second.drop_last()))
            } else {
                None
            },
            None => None,
        }
    }
}

/// The pairs that a list of tokens spells, all in the given form.
pub open spec fn tuples_in_form(tokens: Seq<Seq<u8>>, form: TupleForm) -> Option<
    Seq<(Seq<u8>, Seq<u8>)>,
>
    decreases tokens.len(),
{
    if tokens.len() == 0 {
        Some(Seq::empty())
    } else {
        match head_tuple(tokens, form) {
            Some(t) => match tuples_in_form(tokens.skip(width(form)), form) {
                Some(rest) => Some(seq![t] + rest),
                None => None,
            },
            None => None,
        }
    }
}

/// The pairs that a list of tokens spells. The first pair decides the form,
/// and a list that mixes forms spells nothing.
pub open spec fn tuples(tokens: Seq<Seq<u8>>) -> Option<Seq<(Seq<u8>, Seq<u8>)>> {
    if tokens.len() == 0 {
        Some(Seq::empty())
    } else {
        tuples_in_form(tokens, form_of(tokens))
    }
}

fn token_ends_with(t: &Vec<u8>, b: u8) -> (r: bool)
    ensures
        r == ends_with(t@, b),
{
    t.len() > 0 && t[t.len() - 1] == b
}

fn token_starts_with(t: &Vec<u8>, b: u8) -> (r: bool)
    ensures
        r == starts_with(t@, b),
{
    t.len() > 0 && t[0] == b
}

fn token_is_semicolon(t: &Vec<u8>) -> (r: bool)
    ensures
        r == is_semicolon(t@),
{
    t.len() == 1 && t[0] == SEMICOLON
}

fn form_at(tokens: &Vec<Vec<u8>>, at: usize, end: usize) -> (r: TupleForm)
    requires
        at < end <= tokens.len(),
    ensures
        r == form_of(views(tokens@).subrange(at as int, end as int)),
{
    if token_ends_with(&tokens[at], CLOSE) {
        TupleForm::Joined
    } else if end - at >= 2 && token_is_semicolon(&tokens[at + 1]) {
        TupleForm::Separated
    } else {
        TupleForm::Spaced
    }
}

fn width_of(form: TupleForm) -> (r: usize)
    ensures
        r == width(form),
{
    match form {
        TupleForm::Joined => 1,
        TupleForm::Spaced => 2,
        TupleForm::Separated => 3,
    }
}

fn strip_brackets(first: &Vec<u8>, second: &Vec<u8>) -> (r: Option<(Vec<u8>, Vec<u8>)>)
    ensures
        match r {
            Some(p) => starts_with(first@, OPEN) && ends_with(second@, CLOSE) && p.0@
                == first@.skip(1) && p.1@ == second@.drop_last(),
            None => !(starts_with(first@, OPEN) && ends_with(second@, CLOSE)),
        },
{
    if token_starts_with(first, OPEN) && token_ends_with(second, CLOSE) {
        let a = copy_range(first.as_slice(), 1, first.len());
        let b = copy_range(second.as_slice(), 0, second.len() - 1);
        Some((a, b))
    } else {
        None
    }
}

fn head_tuple_at(tokens: &Vec<Vec<u8>>, at: usize, end: usize, form: TupleForm) -> (r: Option<
    (Vec<u8>, Vec<u8>),
>)
    requires
        at < end <= tokens.len(),
    ensures
        match r {
            Some(p) => head_tuple(views(tokens@).subrange(at as int, end as int), form) == Some(
                (p.0@, p.1@),
            ) && at + width(form) <= end,
            None => head_tuple(views(tokens@).subrange(at as int, end as int), form) is None,
        },
{
    if form_at(tokens, at, end) != form {
        return None;
    }
    if end - at < width_of(form) {
        return None;
    }
    match form {
        TupleForm::Joined => {
            let pieces = split_line(tokens[at].as_slice(), SEMICOLON);
            if pieces.len() >= 2 {
                strip_brackets(&pieces[0], &pieces[1])
            } else {
                None
            }
        },
        TupleForm::Spaced => strip_brackets(&tokens[at], &tokens[at + 1]),
        TupleForm::Separated => strip_brackets(&tokens[at], &tokens[at + 2]),
    }
}

/// Reads the pairs that the tokens from `start` up to `end` spell.
pub fn gobble_tuples(tokens: &Vec<Vec<u8>>, start: usize, end: usize) -> (r: Option<
    Vec<(Vec<u8>, Vec<u8>)>,
>)
    requires
        start <= end <= tokens.len(),
    ensures
        match r {
            Some(v) => tuples(views(tokens@).subrange(start as int, end as int)) == Some(
                pair_views(v@),
            ),
            None => tuples(views(tokens@).subrange(start as int, end as int)) is None,
        },
{
    let ghost all = views(tokens@).subrange(start as int, end as int);
    let mut out: Vec<(Vec<u8>, Vec<u8>)> = Vec::new();
    if start == end {
        return Some(out);
    }
    let form = form_at(tokens, start, end);
    let mut at: usize = start;
    assert(all.skip(0) =~= all);
    while at < end
        invariant
            start < end,
            form == form_of(all),
            start <= at <= end <= tokens.len(),
            all == views(tokens@).subrange(start as int, end as int),
            tuples_in_form(all, form) == match tuples_in_form(all.skip(at - start), form) {
                Some(rest) => Some(pair_views(out@) + rest),
                None => None,
            },
        decreases end - at,
    {
        let ghost here = all.skip(at - start);
        match head_tuple_at(tokens, at, end, form) {
            None => {
                return None;
            },
            Some(p) => {
                out.push(p);
                proof {
                    assert(here.skip(width(form)) =~= all.skip(at + width(form) - start));
                    match tuples_in_form(here.skip(width(form)), form) {
                        Some(rest) => {
                        },
                        None => {},
                    }
                }
                at = at + width_of(form);
            },
        }
    }
    Some(out)
}

/// Whether a name or type is written between two bars.
pub open spec fn barred(s: Seq<u8>) -> bool {
    s.len() >= 2 && s[0] == BAR && s.last() == BAR
}

/// What stands between the bars.
pub open spec fn unbar(s: Seq<u8>) -> Seq<u8> {
    s.subrange(1, s.len() - 1)
}

/// The second half of a pair.
pub open spec fn second_of(t: (Seq<u8>, Seq<u8>)) -> Seq<u8> {
    t.1
}

/// What stands between the bars of each half of a pair.
pub open spec fn unbar_both(t: (Seq<u8>, Seq<u8>)) -> (Seq<u8>, Seq<u8>) {
    (unbar(t.0), unbar(t.1))
}

/// Whether no pair of the list has a first half.
pub open spec fn all_unnamed(ts: Seq<(Seq<u8>, Seq<u8>)>) -> bool {
    forall|i: int| 0 <= i < ts.len() ==> (#[trigger] ts[i]).0.len() == 0
}

/// Whether both halves of every pair are written between bars.
pub open spec fn all_barred(ts: Seq<(Seq<u8>, Seq<u8>)>) -> bool {
    forall|i: int| 0 <= i < ts.len() ==> barred((#[trigger] ts[i]).0) && barred(ts[i].1)
}

/// The variables that a list of pairs declares. The list is not empty. Where
/// the first pair has no first half, none has, and the second halves are the
/// types; else each pair is a name and a type, both between bars.
pub open spec fn var_names_of(ts: Seq<(Seq<u8>, Seq<u8>)>) -> Option<VarNamesView> {
    if ts.len() == 0 {
        None
    } else if ts[0].0.len() == 0 {
        if all_unnamed(ts) {
            Some(VarNamesView::TypeOnly(ts.map_values(|t: (Seq<u8>, Seq<u8>)| second_of(t))))
        } else {
            None
        }
    } else {
        if all_barred(ts) {
            Some(VarNamesView::NameAndType(ts.map_values(|t: (Seq<u8>, Seq<u8>)| unbar_both(t))))
        } else {
            None
        }
    }
}

/// The variables that a list of tokens declares.
pub open spec fn var_names(tokens: Seq<Seq<u8>>) -> Option<VarNamesView> {
    match tuples(tokens) {
        Some(ts) => var_names_of(ts),
        None => None,
    }
}

fn strip_bars(s: &Vec<u8>) -> (r: Option<Vec<u8>>)
    ensures
        match r {
            Some(v) => barred(s@) && v@ == unbar(s@),
            None => !barred(s@),
        },
{
    if s.len() >= 2 && s[0] == BAR && s[s.len() - 1] == BAR {
        Some(copy_range(s.as_slice(), 1, s.len() - 1))
    } else {
        None
    }
}

/// Reads the variable list that the tokens from `start` up to `end` spell.
pub fn gobble_var_names_list(tokens: &Vec<Vec<u8>>, start: usize, end: usize) -> (r: Option<
    VarNames,
>)
    requires
        start <= end <= tokens.len(),
    ensures
        crate::items::var_names_view(r) == var_names(
            views(tokens@).subrange(start as int, end as int),
        ),
{
    let pairs = match gobble_tuples(tokens, start, end) {
        Some(pairs) => pairs,
        None => {
            return None;
        },
    };
    let ghost ts = pair_views(pairs@);
    if pairs.len() == 0 {
        return None;
    }
    let mut i: usize = 0;
    if pairs[0].0.len() == 0 {
        let mut types: Vec<Vec<u8>> = Vec::new();
        while i < pairs.len()
            invariant
                0 <= i <= pairs.len(),
                start <= end <= tokens.len(),
                ts == pair_views(pairs@),
                ts.len() > 0 && ts[0].0.len() == 0,
                tuples(views(tokens@).subrange(start as int, end as int)) == Some(ts),
                forall|j: int| 0 <= j < i ==> (#[trigger] ts[j]).0.len() == 0,
                views(types@) == ts.take(i as int).map_values(
                    |t: (Seq<u8>, Seq<u8>)| second_of(t),
                ),
            decreases pairs.len() - i,
        {
            if pairs[i].0.len() != 0 {
                assert(ts[i as int].0.len() != 0);
                return None;
            }
            let ghost before = views(types@);
            types.push(copy_range(pairs[i].1.as_slice(), 0, pairs[i].1.len()));
            proof {
                assert(pairs[i as int].1@.subrange(0, pairs[i as int].1@.len() as int)
                    =~= pairs[i as int].1@);
                assert(views(types@) =~= before.push(ts[i as int].1));
            }
            i += 1;
        }
        Some(VarNames::TypeOnly(types))
    } else {
        let mut named: Vec<(Vec<u8>, Vec<u8>)> = Vec::new();
        while i < pairs.len()
            invariant
                0 <= i <= pairs.len(),
                start <= end <= tokens.len(),
                ts == pair_views(pairs@),
                ts.len() > 0 && ts[0].0.len() != 0,
                tuples(views(tokens@).subrange(start as int, end as int)) == Some(ts),
                forall|j: int| 0 <= j < i ==> barred((#[trigger] ts[j]).0) && barred(ts[j].1),
                pair_views(named@) == ts.take(i as int).map_values(
                    |t: (Seq<u8>, Seq<u8>)| unbar_both(t),
                ),
            decreases pairs.len() - i,
        {
            let name = match strip_bars(&pairs[i].0) {
                Some(name) => name,
                None => {
                    assert(!barred(ts[i as int].0));
                    return None;
                },
            };
            let ty = match strip_bars(&pairs[i].1) {
                Some(ty) => ty,
                None => {
                    assert(!barred(ts[i as int].1));
                    return None;
                },
            };
            let ghost before = pair_views(named@);
            named.push((name, ty));
            proof {
                assert(pair_views(named@) =~= before.push(unbar_both(ts[i as int])));
            }
            i += 1;
        }
        assert(ts.take(pairs.len() as int) =~= ts);
        Some(VarNames::NameAndType(named))
    }
}

} // verus!
