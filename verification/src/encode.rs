//! Binary Combinatory Logic encoding of a combinator tree.
//!
//! `S` encodes as `01`, `K` as `00`, and an application of `n` children as
//! `n - 1` leading `1`s followed by the children's encodings in order: a
//! left-associative chain `(((f a1) a2) ... an)` of binary applications,
//! each written `1 x y`, flattens to exactly that shape.

use vstd::prelude::*;

use crate::tree::SKCombinator;
use crate::tree::SkTree;
use crate::tree::children_view;
use crate::tree::lemma_children_view_index;
use crate::tree::lemma_well_formed_list_index;
use crate::tree::well_formed;
use crate::tree::well_formed_list;

verus! {

/// `n` repetitions of the character `1`.
pub open spec fn ones(n: nat) -> Seq<char> {
    Seq::new(n, |i: int| '1')
}

/// The bit-string encoding of a combinator tree, as a sequence of the
/// characters `0` and `1`.
pub open spec fn encoding(t: SkTree) -> Seq<char>
    decreases t, 0int,
{
    match t {
        SkTree::S => seq!['0', '1'],
        SkTree::K => seq!['0', '0'],
        SkTree::Ap(ts) => ones((ts.len() - 1) as nat) + encoding_list(ts, 0),
    }
}

/// The concatenated encodings of the trees `ts[i..]`, in order.
pub open spec fn encoding_list(ts: Seq<SkTree>, i: int) -> Seq<char>
    decreases ts, ts.len() - i,
{
    if 0 <= i < ts.len() {
        encoding(ts[i]) + encoding_list(ts, i + 1)
    } else {
        Seq::empty()
    }
}

/// The encoding of a well-formed tree is never empty: a leaf takes two
/// characters and an application adds at least one `1` in front of its
/// children's encodings.
pub proof fn lemma_encoding_nonempty(t: SkTree)
    requires
        well_formed(t),
    ensures
        encoding(t).len() >= 2,
        t is Ap ==> encoding(t)[0] == '1',
        (t is S || t is K) ==> encoding(t)[0] == '0',
    decreases t,
{
    match t {
        SkTree::S => {},
        SkTree::K => {},
        SkTree::Ap(ts) => {
            lemma_well_formed_list_index(ts, 0, 0);
            lemma_encoding_nonempty(ts[0]);
            assert(encoding(t)[0] == '1');
        },
    }
}

/// Serialise a well-formed combinator tree into its BCL bit-string.
#[verifier::loop_isolation(false)]
pub fn sk_tree_to_bcl(tree: &SKCombinator) -> (r: String)
    requires
        well_formed(tree@),
    ensures
        r@ == encoding(tree@),
    decreases *tree,
{
    match tree {
        SKCombinator::S => {
            let r = "01".to_owned();
            proof {
                reveal_strlit("01");
                assert(r@ =~= encoding(tree@));
            }
            r
        },
        SKCombinator::K => {
            let r = "00".to_owned();
            proof {
                reveal_strlit("00");
                assert(r@ =~= encoding(tree@));
            }
            r
        },
        SKCombinator::Ap(v) => {
            let ghost cv = children_view(*v, 0);
            proof {
                lemma_children_view_index(*v, 0);
            }
            let n = v.len();
            let mut r = String::new();
            let mut j: usize = 0;
            while j + 1 < n
                invariant
                    j + 1 <= n,
                    n == v.len(),
                    r@ == ones(j as nat),
                decreases n - j,
            {
                r.append("1");
                proof {
                    reveal_strlit("1");
                    assert(r@ =~= ones((j + 1) as nat));
                }
                j += 1;
            }
            proof {
                assert(n >= 2);
                assert(r@ =~= ones((n - 1) as nat));
                assert(encoding(tree@) == ones((cv.len() - 1) as nat) + encoding_list(cv, 0));
                assert(r@ + encoding_list(cv, 0) == encoding(tree@));
            }
            let mut k: usize = 0;
            while k < n
                invariant
                    k <= n,
                    n == v.len(),
                    cv == children_view(*v, 0),
                    cv.len() == n,
                    forall|m: int| 0 <= m < n ==> cv[m] == crate::tree::tree_view(v@[m]),
                    well_formed_list(cv, 0),
                    r@ + encoding_list(cv, k as int) == encoding(tree@),
                decreases n - k,
            {
                proof {
                    lemma_well_formed_list_index(cv, 0, k as int);
                    assert(decreases_to!(*tree => (*tree)->Ap_0));
                    assert((*tree)->Ap_0 == *v);
                    assert(decreases_to!(*v => v@[k as int]));
                }
                let piece = sk_tree_to_bcl(&v[k]);
                r.append(piece.as_str());
                proof {
                    assert(encoding_list(cv, k as int) == encoding(cv[k as int]) + encoding_list(
                        cv,
                        k + 1,
                    ));
                    assert(r@ + encoding_list(cv, k + 1) =~= encoding(tree@));
                }
                k += 1;
            }
            proof {
                assert(encoding_list(cv, n as int) =~= Seq::<char>::empty());
                assert(r@ =~= r@ + encoding_list(cv, n as int));
            }
            r
        },
    }
}

} // verus!
