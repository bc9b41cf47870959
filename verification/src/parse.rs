//! Recursive-descent parsing of SK expressions.
//!
//! Grammar, with whitespace insignificant between tokens:
//!
//! ```text
//! item       := 'S' | 'K' | '(' item+ ')'
//! expression := item* end-of-input
//! ```
//!
//! A group of one expression collapses to that expression; a group of zero
//! expressions is a syntax error. An input with zero top-level expressions
//! parses to the identity combinator `S K K` — that sugar holds at the top
//! level only.
//!
//! The specification strips whitespace first (`despace`) and then descends
//! over the remaining characters; the executable parser mirrors it, keeping
//! for every kept character its position in the original input so that a
//! diagnostic can point into the source text.

use vstd::prelude::*;

use crate::error::SyntaxError;
use crate::error::SyntaxErrorKind;
use crate::tree::SKCombinator;
use crate::tree::SkTree;
use crate::tree::children_view;
use crate::tree::lemma_children_view_index;
use crate::tree::tree_view;
use crate::tree::well_formed;
use crate::tree::well_formed_list;

verus! {

/// The whitespace characters the grammar ignores.
pub open spec fn is_space(c: char) -> bool {
    c == ' ' || c == '\t' || c == '\n' || c == '\r'
}

/// `s` with its whitespace characters removed.
pub open spec fn despace(s: Seq<char>) -> Seq<char>
    decreases s.len(),
{
    if s.len() == 0 {
        Seq::empty()
    } else {
        let pre = despace(s.drop_last());
        if is_space(s.last()) {
            pre
        } else {
            pre.push(s.last())
        }
    }
}

/// One or several expressions collapse to a single tree: a lone expression
/// stands for itself, two or more form an application node.
pub open spec fn collapse(items: Seq<SkTree>) -> SkTree {
    if items.len() == 1 {
        items[0]
    } else {
        SkTree::Ap(items)
    }
}

/// The identity combinator `S K K`, the reading of an empty top-level input.
pub open spec fn identity_tree() -> SkTree {
    SkTree::Ap(seq![SkTree::S, SkTree::K, SkTree::K])
}

/// Parse one item of the whitespace-free input `s` at position `i`: the tree
/// and the position just past it, or `None` if no item starts at `i`.
pub open spec fn spec_parse_item(s: Seq<char>, i: int) -> Option<(SkTree, int)>
    decreases s.len() - i, 0int,
{
    if !(0 <= i < s.len()) {
        None
    } else if s[i] == 'S' {
        Some((SkTree::S, i + 1))
    } else if s[i] == 'K' {
        Some((SkTree::K, i + 1))
    } else if s[i] == '(' {
        let inner = spec_parse_items(s, i + 1);
        if inner.0.len() >= 1 && inner.1 < s.len() && s[inner.1] == ')' {
            Some((collapse(inner.0), inner.1 + 1))
        } else {
            None
        }
    } else {
        None
    }
}

/// Parse items of the whitespace-free input `s` from position `i` on,
/// greedily, until no further item starts: the trees in order and the
/// position where collection stopped.
pub open spec fn spec_parse_items(s: Seq<char>, i: int) -> (Seq<SkTree>, int)
    decreases s.len() - i, 1int,
{
    if !(0 <= i <= s.len()) {
        (Seq::empty(), i)
    } else {
        match spec_parse_item(s, i) {
            None => (Seq::empty(), i),
            Some(tj) => {
                if i < tj.1 <= s.len() {
                    let rest = spec_parse_items(s, tj.1);
                    (seq![tj.0] + rest.0, rest.1)
                } else {
                    (seq![tj.0], tj.1)
                }
            },
        }
    }
}

/// Parse a whole source text: strip whitespace, collect top-level items,
/// and demand that they reach the end of the input. Zero items read as the
/// identity combinator.
pub open spec fn spec_parse(s: Seq<char>) -> Option<SkTree> {
    let d = despace(s);
    let top = spec_parse_items(d, 0);
    if top.1 == d.len() {
        if top.0.len() == 0 {
            Some(identity_tree())
        } else {
            Some(collapse(top.0))
        }
    } else {
        None
    }
}

/// A parsed item always consumes at least one character and never passes
/// the end; collection never walks backwards.
pub proof fn lemma_parse_item_progress(s: Seq<char>, i: int)
    ensures
        spec_parse_item(s, i) matches Some(tj) ==> i < tj.1 <= s.len(),
    decreases s.len() - i, 0int,
{
    if 0 <= i < s.len() && s[i] == '(' {
        lemma_parse_items_progress(s, i + 1);
    }
}

/// See `lemma_parse_item_progress`; moreover collection stands still
/// exactly when it finds no item.
pub proof fn lemma_parse_items_progress(s: Seq<char>, i: int)
    requires
        0 <= i <= s.len(),
    ensures
        i <= spec_parse_items(s, i).1 <= s.len(),
        spec_parse_items(s, i).0.len() == 0 ==> spec_parse_items(s, i) == (Seq::<
            SkTree,
        >::empty(), i),
    decreases s.len() - i, 1int,
{
    lemma_parse_item_progress(s, i);
    match spec_parse_item(s, i) {
        None => {},
        Some(tj) => {
            lemma_parse_items_progress(s, tj.1);
        },
    }
}

/// Whatever the parser returns is well formed: every application node it
/// builds has at least two children.
pub proof fn lemma_parse_item_well_formed(s: Seq<char>, i: int)
    ensures
        spec_parse_item(s, i) matches Some(tj) ==> well_formed(tj.0),
    decreases s.len() - i, 0int,
{
    if 0 <= i < s.len() && s[i] == '(' {
        lemma_parse_items_well_formed(s, i + 1);
        let inner = spec_parse_items(s, i + 1);
        if inner.0.len() >= 1 && inner.1 < s.len() && s[inner.1] == ')' {
            if inner.0.len() == 1 {
                assert(well_formed(collapse(inner.0)));
            }
        }
    }
}

/// The items the parser collects are well formed, one by one.
pub proof fn lemma_parse_items_well_formed(s: Seq<char>, i: int)
    ensures
        well_formed_list(spec_parse_items(s, i).0, 0),
    decreases s.len() - i, 1int,
{
    if 0 <= i <= s.len() {
        lemma_parse_item_progress(s, i);
        lemma_parse_item_well_formed(s, i);
        match spec_parse_item(s, i) {
            None => {},
            Some(tj) => {
                lemma_parse_items_well_formed(s, tj.1);
                let rest = spec_parse_items(s, tj.1);
                lemma_well_formed_cons(tj.0, rest.0);
            },
        }
    } else {
        assert(well_formed_list(Seq::<SkTree>::empty(), 0));
    }
}

/// A well-formed head in front of a well-formed list gives a well-formed
/// list.
proof fn lemma_well_formed_cons(t: SkTree, rest: Seq<SkTree>)
    requires
        well_formed(t),
        well_formed_list(rest, 0),
    ensures
        well_formed_list(seq![t] + rest, 0),
{
    lemma_well_formed_shift(t, rest, 0);
    assert((seq![t] + rest)[0] == t);
}

/// Well-formedness of a list tail survives putting one tree in front.
proof fn lemma_well_formed_shift(t: SkTree, rest: Seq<SkTree>, k: int)
    requires
        0 <= k <= rest.len(),
        well_formed_list(rest, k),
    ensures
        well_formed_list(seq![t] + rest, k + 1),
    decreases rest.len() - k,
{
    if k < rest.len() {
        assert((seq![t] + rest)[k + 1] == rest[k]);
        lemma_well_formed_shift(t, rest, k + 1);
    }
}

/// The identity combinator is well formed.
pub proof fn lemma_identity_well_formed()
    ensures
        well_formed(identity_tree()),
        spec_parse(Seq::empty()) == Some(identity_tree()),
{
    let ts = seq![SkTree::S, SkTree::K, SkTree::K];
    assert(well_formed(SkTree::S));
    assert(well_formed(SkTree::K));
    assert(well_formed_list(ts, 3));
    assert(well_formed_list(ts, 2));
    assert(well_formed_list(ts, 1));
    assert(well_formed_list(ts, 0));
    assert(despace(Seq::<char>::empty()) =~= Seq::<char>::empty());
    assert(spec_parse_item(Seq::<char>::empty(), 0) is None);
    assert(spec_parse_items(Seq::<char>::empty(), 0) == (Seq::<SkTree>::empty(), 0int));
}

/// Whatever the whole parse returns is well formed.
pub proof fn lemma_parse_well_formed(s: Seq<char>)
    ensures
        spec_parse(s) matches Some(t) ==> well_formed(t),
{
    let d = despace(s);
    lemma_parse_items_well_formed(d, 0);
    lemma_parse_items_progress(d, 0);
    lemma_identity_well_formed();
    let top = spec_parse_items(d, 0);
    if top.1 == d.len() && top.0.len() >= 1 {
        if top.0.len() == 1 {
            assert(well_formed(top.0[0]));
        }
    }
}

/// Strip whitespace from the source, keeping for every remaining character
/// its position in the original text.
#[verifier::loop_isolation(false)]
fn despace_str(s: &str) -> (r: (Vec<char>, Vec<usize>))
    ensures
        r.0@ == despace(s@),
        r.1@.len() == r.0@.len(),
{
    let n = s.unicode_len();
    let mut d: Vec<char> = Vec::new();
    let mut p: Vec<usize> = Vec::new();
    let mut i: usize = 0;
    while i < n
        invariant
            i <= n,
            d@ == despace(s@.subrange(0, i as int)),
            p@.len() == d@.len(),
        decreases n - i,
    {
        let c = s.get_char(i);
        if !(c == ' ' || c == '\t' || c == '\n' || c == '\r') {
            d.push(c);
            p.push(i);
        }
        proof {
            let pre = s@.subrange(0, i as int);
            let now = s@.subrange(0, i + 1);
            assert(now.drop_last() =~= pre);
            assert(now.last() == s@[i as int]);
        }
        i += 1;
    }
    proof {
        assert(s@.subrange(0, n as int) =~= s@);
    }
    (d, p)
}

/// Parse one item of the whitespace-free characters `d` at position `i`.
/// `pos` maps each character of `d` to its position in the source text, of
/// length `src_len`; both serve diagnostics only.
fn parse_item_at(d: &Vec<char>, pos: &Vec<usize>, src_len: usize, i: usize) -> (r: Result<
    (SKCombinator, usize),
    SyntaxError,
>)
    requires
        i <= d@.len(),
        pos@.len() == d@.len(),
    ensures
        (match spec_parse_item(d@, i as int) {
            Some(tj) => r matches Ok(p) && p.0@ == tj.0 && p.1 as int == tj.1 && i < p.1
                <= d@.len(),
            None => r matches Err(_),
        }),
    decreases d@.len() - i, 0int,
{
    if i >= d.len() {
        return Err(SyntaxError { pos: src_len, kind: SyntaxErrorKind::ExpectedItem });
    }
    let c = d[i];
    if c == 'S' {
        Ok((SKCombinator::S, i + 1))
    } else if c == 'K' {
        Ok((SKCombinator::K, i + 1))
    } else if c == '(' {
        let (mut items, j, stop) = parse_items_at(d, pos, src_len, i + 1);
        proof {
            lemma_children_view_index(items, 0);
        }
        if j < d.len() && d[j] == ')' {
            if items.len() == 0 {
                Err(SyntaxError { pos: pos[j], kind: SyntaxErrorKind::EmptyGroup })
            } else if items.len() == 1 {
                let t = items.pop().unwrap();
                Ok((t, j + 1))
            } else {
                Ok((SKCombinator::Ap(items), j + 1))
            }
        } else if j >= d.len() {
            Err(SyntaxError { pos: pos[i], kind: SyntaxErrorKind::UnclosedGroup })
        } else {
            // the character that stopped collection is no ')': pass the
            // failure that stopped it along
            Err(stop.unwrap())
        }
    } else {
        Err(SyntaxError { pos: pos[i], kind: SyntaxErrorKind::ExpectedItem })
    }
}

/// Collect items of the whitespace-free characters `d` from position `i` on,
/// greedily, until no further item starts. Returns the items, the position
/// where collection stopped, and the failure that stopped it.
#[verifier::loop_isolation(false)]
fn parse_items_at(d: &Vec<char>, pos: &Vec<usize>, src_len: usize, i: usize) -> (r: (
    Vec<SKCombinator>,
    usize,
    Option<SyntaxError>,
))
    requires
        i <= d@.len(),
        pos@.len() == d@.len(),
    ensures
        children_view(r.0, 0) == spec_parse_items(d@, i as int).0,
        r.0@.len() == spec_parse_items(d@, i as int).0.len(),
        r.1 as int == spec_parse_items(d@, i as int).1,
        i <= r.1 <= d@.len(),
        r.2 is Some,
    decreases d@.len() - i, 1int,
{
    let ghost goal = spec_parse_items(d@, i as int);
    let mut items: Vec<SKCombinator> = Vec::new();
    let mut cur: usize = i;
    let mut err: Option<SyntaxError> = None;
    let mut done: bool = false;
    while !done
        invariant
            i <= cur <= d@.len(),
            goal.0 == children_view(items, 0) + spec_parse_items(d@, cur as int).0,
            goal.1 == spec_parse_items(d@, cur as int).1,
            items@.len() == children_view(items, 0).len(),
            done ==> spec_parse_item(d@, cur as int) is None,
            done ==> err is Some,
        decreases d@.len() - cur + (if done {
            0int
        } else {
            1int
        }),
    {
        match parse_item_at(d, pos, src_len, cur) {
            Ok(tj) => {
                proof {
                    let t_s = spec_parse_item(d@, cur as int)->Some_0;
                    let rest = spec_parse_items(d@, t_s.1);
                    assert(spec_parse_items(d@, cur as int).0 == seq![t_s.0] + rest.0);
                    assert(spec_parse_items(d@, cur as int).1 == rest.1);
                    lemma_children_view_index(items, 0);
                }
                let ghost before = items;
                items.push(tj.0);
                proof {
                    lemma_children_view_index(items, 0);
                    crate::tree::lemma_children_view_push(before, items, tj.0, 0);
                    assert(children_view(items, 0) == children_view(before, 0).push(tj.0@));
                    assert(goal.0 =~= children_view(items, 0) + spec_parse_items(
                        d@,
                        tj.1 as int,
                    ).0);
                }
                cur = tj.1;
            },
            Err(e) => {
                err = Some(e);
                done = true;
            },
        }
    }
    proof {
        assert(spec_parse_items(d@, cur as int) == (Seq::<SkTree>::empty(), cur as int));
        assert(goal.0 =~= children_view(items, 0));
        lemma_children_view_index(items, 0);
    }
    (items, cur, err)
}

/// Parse a whole source string into a combinator tree, or report where and
/// why it is not one. The returned tree is the one `spec_parse` gives the
/// text, and it is well formed.
pub fn parse_full(s: &str) -> (r: Result<SKCombinator, SyntaxError>)
    ensures
        (match spec_parse(s@) {
            Some(t) => r matches Ok(tree) && tree@ == t && well_formed(t),
            None => r matches Err(_),
        }),
{
    proof {
        lemma_parse_well_formed(s@);
    }
    let src_len = s.unicode_len();
    let (d, pos) = despace_str(s);
    let (mut items, j, stop) = parse_items_at(&d, &pos, src_len, 0);
    if j < d.len() {
        // input remains after the top-level items: report what stopped them
        Err(stop.unwrap())
    } else if items.len() == 0 {
        let mut v: Vec<SKCombinator> = Vec::new();
        v.push(SKCombinator::S);
        v.push(SKCombinator::K);
        v.push(SKCombinator::K);
        proof {
            assert(tree_view(SKCombinator::S) == SkTree::S);
            assert(tree_view(SKCombinator::K) == SkTree::K);
            assert(children_view(v, 3) =~= Seq::<SkTree>::empty());
            assert(children_view(v, 2) =~= seq![SkTree::K]);
            assert(children_view(v, 1) =~= seq![SkTree::K, SkTree::K]);
            assert(children_view(v, 0) =~= seq![SkTree::S, SkTree::K, SkTree::K]);
        }
        Ok(SKCombinator::Ap(v))
    } else if items.len() == 1 {
        proof {
            lemma_children_view_index(items, 0);
        }
        let t = items.pop().unwrap();
        Ok(t)
    } else {
        Ok(SKCombinator::Ap(items))
    }
}

} // verus!
