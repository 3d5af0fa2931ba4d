//! Lexicographic sorting of the result lines.
use vstd::prelude::*;
use vstd::multiset::Multiset;
use crate::text::{
    lex_le,
    str_le,
    lemma_lex_le_refl,
    lemma_lex_le_total,
    lemma_lex_le_transitive,
};

verus! {

/// Every line comes no later than the lines after it.
pub open spec fn sorted_lex(s: Seq<Seq<char>>) -> bool {
    forall|i: int, j: int| 0 <= i < j < s.len() ==> lex_le(#[trigger] s[i], #[trigger] s[j])
}

/// Sort lines lexicographically. The result holds exactly the given
/// lines, each as often as it was given.
pub fn sort_lines(input: Vec<String>) -> (r: Vec<String>)
    ensures
        sorted_lex(r.deep_view()),
        r.deep_view().to_multiset() == input.deep_view().to_multiset(),
{
    broadcast use vstd::seq_lib::group_to_multiset_ensures;

    let ghost orig = input.deep_view();
    let mut src = input;
    let mut out: Vec<String> = Vec::new();
    proof {
        assert(out.deep_view() =~= Seq::<Seq<char>>::empty());
        assert(out.deep_view().to_multiset() =~= Multiset::<Seq<char>>::empty());
        assert(out.deep_view().to_multiset().add(src.deep_view().to_multiset())
            =~= orig.to_multiset());
    }
    while src.len() > 0
        invariant
            sorted_lex(out.deep_view()),
            forall|i: int, j: int|
                0 <= i < out.deep_view().len() && 0 <= j < src.deep_view().len() ==> lex_le(
                    #[trigger] out.deep_view()[i],
                    #[trigger] src.deep_view()[j],
                ),
            out.deep_view().to_multiset().add(src.deep_view().to_multiset())
                == orig.to_multiset(),
        decreases src.len(),
    {
        let mut mi: usize = 0;
        let mut k: usize = 1;
        proof {
            lemma_lex_le_refl(src.deep_view()[0]);
        }
        while k < src.len()
            invariant
                src.len() > 0,
                mi < k,
                k <= src.len(),
                forall|j: int|
                    0 <= j < k ==> lex_le(
                        src.deep_view()[mi as int],
                        #[trigger] src.deep_view()[j],
                    ),
            decreases src.len() - k,
        {
            if str_le(src[k].as_str(), src[mi].as_str()) {
                proof {
                    assert forall|j: int| 0 <= j < k implies lex_le(
                        src.deep_view()[k as int],
                        #[trigger] src.deep_view()[j],
                    ) by {
                        lemma_lex_le_transitive(
                            src.deep_view()[k as int],
                            src.deep_view()[mi as int],
                            src.deep_view()[j],
                        );
                    }
                    lemma_lex_le_refl(src.deep_view()[k as int]);
                }
                mi = k;
            } else {
                proof {
                    lemma_lex_le_total(src.deep_view()[k as int], src.deep_view()[mi as int]);
                }
            }
            k = k + 1;
        }
        let ghost pre_src = src.deep_view();
        let ghost pre_out = out.deep_view();
        let x = src.remove(mi);
        out.push(x);
        proof {
            assert(out.deep_view() =~= pre_out.push(x@));
            assert(src.deep_view() =~= pre_src.remove(mi as int));
            vstd::seq_lib::to_multiset_build(pre_out, x@);
            vstd::seq_lib::to_multiset_remove(pre_src, mi as int);
            assert(out.deep_view().to_multiset() == pre_out.to_multiset().insert(x@));
            assert(src.deep_view().to_multiset() == pre_src.to_multiset().remove(x@));
            assert(pre_src.contains(x@));
            pre_src.to_multiset_ensures();
            assert(pre_src.to_multiset().contains(x@));
            assert(out.deep_view().to_multiset().add(src.deep_view().to_multiset())
                =~= pre_out.to_multiset().add(pre_src.to_multiset()));
            assert forall|i: int, j: int|
                0 <= i < out.deep_view().len() && 0 <= j < src.deep_view().len() implies lex_le(
                #[trigger] out.deep_view()[i],
                #[trigger] src.deep_view()[j],
            ) by {
                let sj = if j < mi {
                    j
                } else {
                    j + 1
                };
                assert(src.deep_view()[j] == pre_src[sj]);
                if i < pre_out.len() {
                    assert(lex_le(pre_out[i], pre_src[sj]));
                } else {
                    assert(out.deep_view()[i] == x@);
                    assert(lex_le(pre_src[mi as int], pre_src[sj]));
                }
            }
            assert forall|i: int, j: int|
                0 <= i < j < out.deep_view().len() implies lex_le(
                #[trigger] out.deep_view()[i],
                #[trigger] out.deep_view()[j],
            ) by {
                if j == out.deep_view().len() - 1 {
                    assert(lex_le(pre_out[i], pre_src[mi as int]));
                }
            }
        }
    }
    proof {
        assert(src.deep_view().to_multiset() =~= Multiset::<Seq<char>>::empty());
        assert(out.deep_view().to_multiset() =~= orig.to_multiset());
    }
    out
}

} // verus!
