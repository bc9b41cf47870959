//! Library-level laws: facts that relate the parser and the encoder across
//! calls, stated over the specification functions that the executable
//! functions' contracts use.

use vstd::prelude::*;

use crate::api::spec_convert;
use crate::encode::encoding;
use crate::encode::encoding_list;
use crate::encode::lemma_encoding_nonempty;
use crate::encode::ones;
use crate::parse::despace;
use crate::parse::identity_tree;
use crate::parse::is_space;
use crate::parse::lemma_identity_well_formed;
use crate::parse::lemma_parse_item_progress;
use crate::parse::lemma_parse_items_progress;
use crate::parse::spec_parse;
use crate::parse::spec_parse_item;
use crate::parse::spec_parse_items;
use crate::tree::SkTree;
use crate::tree::lemma_well_formed_list_index;
use crate::tree::well_formed;

verus! {

/// Parsing and encoding are pure: the same text always converts to the same
/// bit-string.
pub proof fn lemma_convert_deterministic(s1: Seq<char>, s2: Seq<char>)
    requires
        s1 == s2,
    ensures
        spec_convert(s1) == spec_convert(s2),
{
}

/// Whitespace between tokens is insignificant: two texts that agree after
/// whitespace removal parse to the same tree and encode to the same
/// bit-string.
pub proof fn lemma_whitespace_insensitive(s1: Seq<char>, s2: Seq<char>)
    requires
        despace(s1) == despace(s2),
    ensures
        spec_parse(s1) == spec_parse(s2),
        spec_convert(s1) == spec_convert(s2),
{
}

/// The encoding of the identity combinator `S K K`.
pub proof fn lemma_identity_encoding()
    ensures
        encoding(identity_tree()) == seq!['1', '1', '0', '1', '0', '0', '0', '0'],
{
    let ts = seq![SkTree::S, SkTree::K, SkTree::K];
    assert(encoding(SkTree::S) == seq!['0', '1']);
    assert(encoding(SkTree::K) == seq!['0', '0']);
    assert(encoding_list(ts, 3) =~= Seq::<char>::empty());
    assert(encoding_list(ts, 2) =~= seq!['0', '0']);
    assert(encoding_list(ts, 1) =~= seq!['0', '0', '0', '0']);
    assert(encoding_list(ts, 0) =~= seq!['0', '1', '0', '0', '0', '0']);
    assert(ones(2) =~= seq!['1', '1']);
    assert(encoding(identity_tree()) =~= seq!['1', '1', '0', '1', '0', '0', '0', '0']);
}

/// A text of whitespace alone (or no text at all) parses to the identity
/// combinator and encodes as `S K K` does.
pub proof fn lemma_blank_input(s: Seq<char>)
    requires
        forall|k: int| 0 <= k < s.len() ==> is_space(s[k]),
    ensures
        spec_parse(s) == Some(identity_tree()),
        spec_convert(s) == Some(seq!['1', '1', '0', '1', '0', '0', '0', '0']),
{
    lemma_despace_blank(s);
    lemma_identity_well_formed();
    lemma_identity_encoding();
    assert(spec_parse_item(despace(s), 0) is None);
    assert(spec_parse_items(despace(s), 0) == (Seq::<SkTree>::empty(), 0int));
}

/// Removing whitespace from whitespace leaves nothing.
proof fn lemma_despace_blank(s: Seq<char>)
    requires
        forall|k: int| 0 <= k < s.len() ==> is_space(s[k]),
    ensures
        despace(s) == Seq::<char>::empty(),
    decreases s.len(),
{
    if s.len() > 0 {
        lemma_despace_blank(s.drop_last());
    }
}

/// The encoding of an application of `n` children starts with at least
/// `n - 1` characters `1`, and is longer than that prefix.
pub proof fn lemma_application_ones_prefix(ts: Seq<SkTree>)
    requires
        well_formed(SkTree::Ap(ts)),
    ensures
        encoding(SkTree::Ap(ts)).len() > ts.len() - 1,
        forall|p: int| 0 <= p < ts.len() - 1 ==> encoding(SkTree::Ap(ts))[p] == '1',
{
    lemma_well_formed_list_index(ts, 0, 0);
    lemma_encoding_nonempty(ts[0]);
    assert(encoding_list(ts, 0) == encoding(ts[0]) + encoding_list(ts, 1));
    assert(encoding_list(ts, 0).len() >= 2);
}

/// When the first child of an application is a leaf, the encoding starts
/// with exactly `n - 1` characters `1`: the next character is a `0`.
///
/// The restriction to a leaf first child is necessary: the first child's own
/// encoding follows the prefix directly, and an application child starts
/// with `1`s of its own.
pub proof fn lemma_application_ones_exact(ts: Seq<SkTree>)
    requires
        well_formed(SkTree::Ap(ts)),
        ts[0] is S || ts[0] is K,
    ensures
        forall|p: int| 0 <= p < ts.len() - 1 ==> encoding(SkTree::Ap(ts))[p] == '1',
        encoding(SkTree::Ap(ts))[ts.len() - 1] == '0',
{
    lemma_application_ones_prefix(ts);
    lemma_well_formed_list_index(ts, 0, 0);
    lemma_encoding_nonempty(ts[0]);
    assert(encoding_list(ts, 0) == encoding(ts[0]) + encoding_list(ts, 1));
    assert(encoding(SkTree::Ap(ts))[ts.len() - 1] == encoding(ts[0])[0]);
}

/// A successfully parsed item starts with `S`, `K` or `(`, ends with a
/// character other than `(`, and never contains the two adjacent
/// characters `()`.
proof fn lemma_item_no_empty_pair(s: Seq<char>, i: int)
    ensures
        spec_parse_item(s, i) matches Some(tj) ==> {
            &&& forall|p: int|
                #![trigger s[p], s[p + 1]]
                i <= p < tj.1 - 1 ==> !(s[p] == '(' && s[p + 1] == ')')
            &&& s[tj.1 - 1] != '('
            &&& s[i] == 'S' || s[i] == 'K' || s[i] == '('
        },
    decreases s.len() - i, 0int,
{
    if 0 <= i < s.len() && s[i] == '(' {
        lemma_parse_items_progress(s, i + 1);
        lemma_items_no_empty_pair(s, i + 1);
        let inner = spec_parse_items(s, i + 1);
        let m = inner.1;
        if inner.0.len() >= 1 && m < s.len() && s[m] == ')' {
            assert forall|p: int| i <= p < m implies !(#[trigger] s[p] == '(' && #[trigger] s[p
                + 1] == ')') by {
                if p == i {
                    assert(s[i + 1] == 'S' || s[i + 1] == 'K' || s[i + 1] == '(');
                } else if p == m - 1 {
                    assert(s[m - 1] != '(');
                }
            }
        }
    }
}

/// The span of characters a successful item collection covers never
/// contains the two adjacent characters `()`, and its last character is
/// not a `(`.
proof fn lemma_items_no_empty_pair(s: Seq<char>, i: int)
    requires
        0 <= i <= s.len(),
    ensures
        ({
            let r = spec_parse_items(s, i);
            r.0.len() > 0 ==> {
                &&& forall|p: int|
                    #![trigger s[p], s[p + 1]]
                    i <= p < r.1 - 1 ==> !(s[p] == '(' && s[p + 1] == ')')
                &&& s[r.1 - 1] != '('
                &&& i < r.1 <= s.len()
                &&& s[i] == 'S' || s[i] == 'K' || s[i] == '('
            }
        }),
    decreases s.len() - i, 1int,
{
    lemma_parse_item_progress(s, i);
    lemma_item_no_empty_pair(s, i);
    match spec_parse_item(s, i) {
        None => {},
        Some(tj) => {
            let j = tj.1;
            lemma_parse_items_progress(s, j);
            lemma_items_no_empty_pair(s, j);
            let rest = spec_parse_items(s, j);
            if rest.0.len() == 0 {
                assert(spec_parse_items(s, i).1 == j);
            } else {
                let k = rest.1;
                assert forall|p: int| i <= p < k - 1 implies !(#[trigger] s[p] == '('
                    && #[trigger] s[p + 1] == ')') by {
                    if p == j - 1 {
                        assert(s[j - 1] != '(');
                    }
                }
            }
        },
    }
}

/// Striking whitespace out of a text keeps an adjacent `()` pair adjacent:
/// both characters survive, and nothing can come between them.
proof fn lemma_despace_keeps_pair(s: Seq<char>, i: int)
    requires
        0 <= i,
        i + 1 < s.len(),
        s[i] == '(',
        s[i + 1] == ')',
    ensures
        exists|q: int|
            #![trigger despace(s)[q]]
            0 <= q && q + 1 < despace(s).len() && despace(s)[q] == '(' && despace(s)[q + 1]
                == ')',
    decreases s.len(),
{
    let d = despace(s);
    if i + 1 == s.len() - 1 {
        let s1 = s.drop_last();
        let d1 = despace(s1);
        assert(s1.last() == s[i]);
        assert(d1 == despace(s1.drop_last()).push('('));
        assert(d == d1.push(')'));
        let q = d.len() - 2;
        assert(d[q] == '(' && d[q + 1] == ')');
        assert(0 <= q && q + 1 < d.len());
    } else {
        lemma_despace_keeps_pair(s.drop_last(), i);
        let d1 = despace(s.drop_last());
        let q = choose|q: int|
            #![trigger d1[q]]
            0 <= q && q + 1 < d1.len() && d1[q] == '(' && d1[q + 1] == ')';
        assert(d[q] == '(' && d[q + 1] == ')' && q + 1 < d.len());
    }
}

/// A text containing the two adjacent characters `()` never parses: a
/// group must hold at least one expression.
pub proof fn lemma_empty_group_fails(s: Seq<char>, i: int)
    requires
        0 <= i,
        i + 1 < s.len(),
        s[i] == '(',
        s[i + 1] == ')',
    ensures
        spec_parse(s) is None,
{
    if spec_parse(s) is Some {
        let d = despace(s);
        lemma_despace_keeps_pair(s, i);
        let q: int = choose|q: int|
            #![trigger d[q]]
            0 <= q && q + 1 < d.len() && d[q] == '(' && d[q + 1] == ')';
        lemma_parse_items_progress(d, 0);
        lemma_items_no_empty_pair(d, 0);
        let top = spec_parse_items(d, 0);
        if top.0.len() == 0 {
            assert(d.len() == 0);
        } else {
            assert(!(d[q] == '(' && d[q + 1] == ')'));
        }
        assert(false);
    }
}

/// The number of occurrences of `c` among the characters `s[lo..hi]`.
pub open spec fn count_in(s: Seq<char>, lo: int, hi: int, c: char) -> int
    decreases hi - lo,
{
    if lo < hi {
        count_in(s, lo, hi - 1, c) + if s[hi - 1] == c {
            1int
        } else {
            0int
        }
    } else {
        0
    }
}

/// Counting over a span splits at any point inside it.
proof fn lemma_count_split(s: Seq<char>, lo: int, mid: int, hi: int, c: char)
    requires
        lo <= mid <= hi,
    ensures
        count_in(s, lo, hi, c) == count_in(s, lo, mid, c) + count_in(s, mid, hi, c),
    decreases hi - mid,
{
    if mid < hi {
        lemma_count_split(s, lo, mid, hi - 1, c);
    }
}

/// Counting only reads the characters of the span.
proof fn lemma_count_congruent(a: Seq<char>, b: Seq<char>, lo: int, hi: int, c: char)
    requires
        forall|p: int| lo <= p < hi ==> a[p] == b[p],
    ensures
        count_in(a, lo, hi, c) == count_in(b, lo, hi, c),
    decreases hi - lo,
{
    if lo < hi {
        lemma_count_congruent(a, b, lo, hi - 1, c);
    }
}

/// The span of a successful item holds as many `(` as `)`.
proof fn lemma_item_balanced(s: Seq<char>, i: int)
    ensures
        spec_parse_item(s, i) matches Some(tj) ==> count_in(s, i, tj.1, '(') == count_in(
            s,
            i,
            tj.1,
            ')',
        ),
    decreases s.len() - i, 0int,
{
    if 0 <= i < s.len() {
        if s[i] == 'S' || s[i] == 'K' {
            assert(count_in(s, i, i, '(') == 0);
            assert(count_in(s, i, i, ')') == 0);
        } else if s[i] == '(' {
            lemma_parse_items_progress(s, i + 1);
            lemma_items_balanced(s, i + 1);
            let inner = spec_parse_items(s, i + 1);
            let m = inner.1;
            if inner.0.len() >= 1 && m < s.len() && s[m] == ')' {
                lemma_count_split(s, i, i + 1, m + 1, '(');
                lemma_count_split(s, i + 1, m, m + 1, '(');
                lemma_count_split(s, i, i + 1, m + 1, ')');
                lemma_count_split(s, i + 1, m, m + 1, ')');
                assert(count_in(s, i, i, '(') == 0 && count_in(s, i, i, ')') == 0);
                assert(count_in(s, i, i + 1, '(') == 1 && count_in(s, i, i + 1, ')') == 0);
                assert(count_in(s, m, m, '(') == 0 && count_in(s, m, m, ')') == 0);
                assert(count_in(s, m, m + 1, '(') == 0 && count_in(s, m, m + 1, ')') == 1);
            }
        }
    }
}

/// The span a successful item collection covers holds as many `(` as `)`.
proof fn lemma_items_balanced(s: Seq<char>, i: int)
    requires
        0 <= i <= s.len(),
    ensures
        ({
            let r = spec_parse_items(s, i);
            count_in(s, i, r.1, '(') == count_in(s, i, r.1, ')')
        }),
    decreases s.len() - i, 1int,
{
    lemma_parse_item_progress(s, i);
    lemma_item_balanced(s, i);
    match spec_parse_item(s, i) {
        None => {
            assert(count_in(s, i, i, '(') == 0);
            assert(count_in(s, i, i, ')') == 0);
        },
        Some(tj) => {
            lemma_parse_items_progress(s, tj.1);
            lemma_items_balanced(s, tj.1);
            let k = spec_parse_items(s, tj.1).1;
            lemma_count_split(s, i, tj.1, k, '(');
            lemma_count_split(s, i, tj.1, k, ')');
        },
    }
}

/// Striking whitespace out of a text does not change how often a
/// non-whitespace character occurs in it.
proof fn lemma_despace_count(s: Seq<char>, c: char)
    requires
        !is_space(c),
    ensures
        count_in(despace(s), 0, despace(s).len() as int, c) == count_in(s, 0, s.len() as int, c),
    decreases s.len(),
{
    if s.len() > 0 {
        let s1 = s.drop_last();
        lemma_despace_count(s1, c);
        lemma_count_congruent(s1, s, 0, s1.len() as int, c);
        let d1 = despace(s1);
        let d = despace(s);
        if !is_space(s.last()) {
            lemma_count_congruent(d1, d, 0, d1.len() as int, c);
        }
    }
}

/// A text with unequal numbers of `(` and `)` never parses.
pub proof fn lemma_unbalanced_fails(s: Seq<char>)
    requires
        count_in(s, 0, s.len() as int, '(') != count_in(s, 0, s.len() as int, ')'),
    ensures
        spec_parse(s) is None,
{
    if spec_parse(s) is Some {
        let d = despace(s);
        lemma_parse_items_progress(d, 0);
        lemma_items_balanced(d, 0);
        lemma_despace_count(s, '(');
        lemma_despace_count(s, ')');
        assert(false);
    }
}

} // verus!
