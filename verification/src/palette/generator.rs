//! The recursive combination generator.
//!
//! Enumerates vertical stacks over a k-sorted layer list: every stack whose
//! hex codes are pairwise distinct, whose layers come from the admissible
//! set in input order, and whose layer counts sum exactly to the target.
//! Expansion is in input order (each step continues strictly after the
//! layer just taken), so each selection is visited exactly once and the
//! output order depends only on the input order.

use vstd::prelude::*;
use crate::palette::color_combi::{contains_hex_spec, total_layers_spec, ColorCombi};
use crate::palette::color_layer::{ColorLayer, LayerModel};
use crate::text::str_eq;

verus! {

/// The character sequences of a string list, in order.
pub open spec fn strs_view(s: Seq<String>) -> Seq<Seq<char>> {
    s.map_values(|x: String| x@)
}

/// Whether a hex code appears in a list of codes.
pub open spec fn contains_str_spec(rs: Seq<Seq<char>>, hex: Seq<char>) -> bool {
    exists|i: int| 0 <= i < rs.len() && #[trigger] rs[i] == hex
}

/// Whether a hex code appears in the restriction list.
pub open spec fn restrict_allows_spec(restrict: Option<Seq<Seq<char>>>, hex: Seq<char>) -> bool {
    match restrict {
        None => true,
        Some(rs) => contains_str_spec(rs, hex),
    }
}

/// The view of an optional restriction list.
pub open spec fn restrict_view(restrict: Option<&Vec<String>>) -> Option<Seq<Seq<char>>> {
    match restrict {
        None => None,
        Some(v) => Some(strs_view(v@)),
    }
}

/// A well-formed emitted stack: pairwise distinct hex codes, all admissible
/// under the restriction, and layer counts summing exactly to the target.
pub open spec fn combi_ok_spec(
    c: Seq<LayerModel>,
    restrict: Option<Seq<Seq<char>>>,
    target: int,
) -> bool {
    &&& total_layers_spec(c) == target
    &&& forall|i: int, j: int| 0 <= i < j < c.len() ==> #[trigger] c[i].hex != #[trigger] c[j].hex
    &&& forall|i: int| 0 <= i < c.len() ==> restrict_allows_spec(restrict, #[trigger] c[i].hex)
}

/// A partial stack during expansion: distinct, admissible, within budget.
pub open spec fn combi_partial_spec(
    c: Seq<LayerModel>,
    restrict: Option<Seq<Seq<char>>>,
    target: int,
) -> bool {
    &&& total_layers_spec(c) <= target
    &&& forall|i: int, j: int| 0 <= i < j < c.len() ==> #[trigger] c[i].hex != #[trigger] c[j].hex
    &&& forall|i: int| 0 <= i < c.len() ==> restrict_allows_spec(restrict, #[trigger] c[i].hex)
}

/// The models of a list of stacks, in order.
pub open spec fn combis_view(s: Seq<ColorCombi>) -> Seq<Seq<LayerModel>> {
    s.map_values(|c: ColorCombi| c@)
}

/// The models of a list of layers, in order.
pub open spec fn layers_view(s: Seq<ColorLayer>) -> Seq<LayerModel> {
    s.map_values(|l: ColorLayer| l@)
}

/// Everything the depth-first expansion of `cur` emits from index `j`
/// onward: at each admissible layer whose hex code is new to the stack and
/// whose count fits the remaining budget, the extended stack (emitted when
/// it reaches the target exactly) followed by its own rightward expansion,
/// then the expansion of `cur` past `j`. This pins completeness and the
/// emission order.
pub open spec fn expand_from_spec(
    rv: Option<Seq<Seq<char>>>,
    cur: Seq<LayerModel>,
    layers: Seq<LayerModel>,
    j: int,
    target: int,
) -> Seq<Seq<LayerModel>>
    decreases layers.len() - j,
{
    if j >= layers.len() || j < 0 {
        Seq::empty()
    } else {
        let l = layers[j];
        let valid = restrict_allows_spec(rv, l.hex) && !contains_hex_spec(cur, l.hex)
            && total_layers_spec(cur) + l.count <= target;
        let here: Seq<Seq<LayerModel>> = if valid {
            let nc = cur.push(l);
            (if total_layers_spec(nc) == target {
                seq![nc]
            } else {
                Seq::empty()
            }) + expand_from_spec(rv, nc, layers, j + 1, target)
        } else {
            Seq::empty()
        };
        here + expand_from_spec(rv, cur, layers, j + 1, target)
    }
}

/// Everything the generator emits from seed index `i` onward: each
/// admissible layer that fits the budget seeds a singleton stack (emitted
/// when it alone reaches the target) and is expanded strictly rightwards.
pub open spec fn create_from_spec(
    rv: Option<Seq<Seq<char>>>,
    layers: Seq<LayerModel>,
    i: int,
    target: int,
) -> Seq<Seq<LayerModel>>
    decreases layers.len() - i,
{
    if i >= layers.len() || i < 0 {
        Seq::empty()
    } else {
        let l = layers[i];
        let here: Seq<Seq<LayerModel>> = if restrict_allows_spec(rv, l.hex) && l.count
            <= target {
            let base = seq![l];
            (if l.count == target {
                seq![base]
            } else {
                Seq::empty()
            }) + expand_from_spec(rv, base, layers, i + 1, target)
        } else {
            Seq::empty()
        };
        here + create_from_spec(rv, layers, i + 1, target)
    }
}

/// The complete, ordered output of the combination generator.
pub open spec fn create_multi_combi_spec(
    rv: Option<Seq<Seq<char>>>,
    layers: Seq<LayerModel>,
    target: int,
) -> Seq<Seq<LayerModel>> {
    create_from_spec(rv, layers, 0, target)
}

/// Checks whether a hex code is admissible under the restriction list.
fn is_admissible(restrict: Option<&Vec<String>>, hex: &str) -> (r: bool)
    ensures
        r == restrict_allows_spec(restrict_view(restrict), hex@),
{
    match restrict {
        None => true,
        Some(list) => {
            let mut i: usize = 0;
            while i < list.len()
                invariant
                    i <= list@.len(),
                    restrict == Some(list),
                    forall|j: int| 0 <= j < i ==> #[trigger] list@[j]@ != hex@,
                decreases list@.len() - i,
            {
                let cand = &list[i];
                if str_eq(cand.as_str(), hex) {
                    proof {
                        assert(cand@ == list@[i as int]@);
                        assert(strs_view(list@)[i as int] == list@[i as int]@);
                        assert(contains_str_spec(strs_view(list@), hex@)) by {
                            assert(0 <= (i as int) < strs_view(list@).len() && strs_view(
                                list@,
                            )[i as int] == hex@);
                        }
                        assert(restrict_view(restrict) == Some(strs_view(list@)));
                        assert(restrict_allows_spec(restrict_view(restrict), hex@));
                    }
                    return true;
                }
                i = i + 1;
            }
            proof {
                assert(!contains_str_spec(strs_view(list@), hex@)) by {
                    if contains_str_spec(strs_view(list@), hex@) {
                        let w = choose|w: int|
                            0 <= w < strs_view(list@).len() && strs_view(list@)[w] == hex@;
                        assert(list@[w]@ == hex@);
                        assert(false);
                    }
                }
            }
            false
        },
    }
}

/// Expands a partial stack with every admissible layer at index `start` or
/// later, emitting each extension whose total reaches the target exactly,
/// and recursing strictly rightwards: the appended stacks are exactly
/// [`expand_from_spec`], each of them well formed.
pub fn compute_combination(
    restrict: Option<&Vec<String>>,
    current: &ColorCombi,
    color_layers: &[ColorLayer],
    start: usize,
    nb_layers_max: u32,
    out: &mut Vec<ColorCombi>,
)
    requires
        combi_partial_spec(current@, restrict_view(restrict), nb_layers_max as int),
        forall|i: int|
            0 <= i < old(out)@.len() ==> combi_ok_spec(
                #[trigger] old(out)@[i]@,
                restrict_view(restrict),
                nb_layers_max as int,
            ),
    ensures
        final(out)@.len() >= old(out)@.len(),
        forall|i: int|
            0 <= i < old(out)@.len() ==> #[trigger] final(out)@[i] == old(out)@[i],
        forall|i: int|
            0 <= i < final(out)@.len() ==> combi_ok_spec(
                #[trigger] final(out)@[i]@,
                restrict_view(restrict),
                nb_layers_max as int,
            ),
        combis_view(final(out)@) == combis_view(old(out)@) + expand_from_spec(
            restrict_view(restrict),
            current@,
            layers_view(color_layers@),
            start as int,
            nb_layers_max as int,
        ),
    decreases color_layers@.len() - start,
{
    let ghost rv = restrict_view(restrict);
    let ghost lv = layers_view(color_layers@);
    let ghost tgt = nb_layers_max as int;
    if start >= color_layers.len() {
        proof {
            assert(combis_view(out@) =~= combis_view(out@) + Seq::<Seq<LayerModel>>::empty());
        }
        return ;
    }
    let mut j: usize = start;
    while j < color_layers.len()
        invariant
            start <= j,
            combi_partial_spec(current@, rv, tgt),
            rv == restrict_view(restrict),
            lv == layers_view(color_layers@),
            tgt == nb_layers_max as int,
            out@.len() >= old(out)@.len(),
            forall|i: int| 0 <= i < old(out)@.len() ==> #[trigger] out@[i] == old(out)@[i],
            forall|i: int| 0 <= i < out@.len() ==> combi_ok_spec(#[trigger] out@[i]@, rv, tgt),
            expand_from_spec(rv, current@, lv, start as int, tgt) == combis_view(out@).skip(
                old(out)@.len() as int,
            ) + expand_from_spec(rv, current@, lv, j as int, tgt),
        decreases color_layers@.len() - j,
    {
        let layer = &color_layers[j];
        let ghost pre = out@;
        proof {
            assert(lv[j as int] == layer@);
        }
        if is_admissible(restrict, layer.hex_code()) {
            proof {
                crate::palette::color_combi::lemma_total_nonneg(current@);
            }
            match current.combine_with_layer(layer.duplicate(), nb_layers_max) {
                Some(new_combi) => {
                    proof {
                        assert(new_combi@ == current@.push(layer@));
                        crate::palette::color_combi::lemma_total_push(current@, layer@);
                        assert(forall|a: int|
                            0 <= a < current@.len() ==> #[trigger] new_combi@[a] == current@[a]);
                        assert(combi_partial_spec(new_combi@, rv, tgt));
                    }
                    let ghost emitk: Seq<Seq<LayerModel>> = if total_layers_spec(new_combi@)
                        == tgt {
                        seq![new_combi@]
                    } else {
                        Seq::empty()
                    };
                    if new_combi.total_layers() == nb_layers_max {
                        let emitted = new_combi.duplicate();
                        out.push(emitted);
                        proof {
                            assert(combis_view(out@) =~= combis_view(pre) + emitk);
                        }
                    } else {
                        proof {
                            assert(combis_view(out@) =~= combis_view(pre) + emitk);
                        }
                    }
                    let ghost mid = out@;
                    if j + 1 < color_layers.len() {
                        compute_combination(
                            restrict,
                            &new_combi,
                            color_layers,
                            j + 1,
                            nb_layers_max,
                            out,
                        );
                    } else {
                        proof {
                            assert(expand_from_spec(rv, new_combi@, lv, j + 1, tgt)
                                =~= Seq::<Seq<LayerModel>>::empty());
                            assert(combis_view(out@) =~= combis_view(mid) + expand_from_spec(
                                rv,
                                new_combi@,
                                lv,
                                j + 1,
                                tgt,
                            ));
                        }
                    }
                    proof {
                        assert(combis_view(out@) =~= combis_view(pre) + (emitk
                            + expand_from_spec(rv, new_combi@, lv, j + 1, tgt)));
                        assert(combis_view(out@).skip(old(out)@.len() as int)
                            =~= combis_view(pre).skip(old(out)@.len() as int) + (emitk
                            + expand_from_spec(rv, new_combi@, lv, j + 1, tgt)));
                        assert(expand_from_spec(rv, current@, lv, j as int, tgt) == (emitk
                            + expand_from_spec(rv, new_combi@, lv, j + 1, tgt))
                            + expand_from_spec(rv, current@, lv, j + 1, tgt));
                    }
                },
                None => {
                    proof {
                        assert(expand_from_spec(rv, current@, lv, j as int, tgt)
                            =~= expand_from_spec(rv, current@, lv, j + 1, tgt));
                    }
                },
            }
        } else {
            proof {
                assert(expand_from_spec(rv, current@, lv, j as int, tgt) =~= expand_from_spec(
                    rv,
                    current@,
                    lv,
                    j + 1,
                    tgt,
                ));
            }
        }
        j = j + 1;
    }
    proof {
        assert(expand_from_spec(rv, current@, lv, color_layers@.len() as int, tgt)
            =~= Seq::<Seq<LayerModel>>::empty());
        assert(combis_view(out@) =~= combis_view(old(out)@) + combis_view(out@).skip(
            old(out)@.len() as int,
        ));
    }
}

/// Generates every distinct stack over the given layers whose hex codes
/// are pairwise distinct, whose layers are admissible under the
/// restriction list, and whose layer counts sum exactly to
/// `nb_layers_target`: exactly [`create_multi_combi_spec`], complete and
/// in depth-first input order.
pub fn create_multi_combi(
    restrict_colors: Option<&Vec<String>>,
    color_layers: &[ColorLayer],
    nb_layers_target: u32,
) -> (r: Vec<ColorCombi>)
    ensures
        forall|i: int|
            0 <= i < r@.len() ==> combi_ok_spec(
                #[trigger] r@[i]@,
                restrict_view(restrict_colors),
                nb_layers_target as int,
            ),
        combis_view(r@) == create_multi_combi_spec(
            restrict_view(restrict_colors),
            layers_view(color_layers@),
            nb_layers_target as int,
        ),
{
    let ghost rv = restrict_view(restrict_colors);
    let ghost lv = layers_view(color_layers@);
    let ghost tgt = nb_layers_target as int;
    let mut out: Vec<ColorCombi> = Vec::new();
    let mut i: usize = 0;
    while i < color_layers.len()
        invariant
            i <= color_layers@.len(),
            rv == restrict_view(restrict_colors),
            lv == layers_view(color_layers@),
            tgt == nb_layers_target as int,
            forall|a: int| 0 <= a < out@.len() ==> combi_ok_spec(#[trigger] out@[a]@, rv, tgt),
            create_from_spec(rv, lv, 0, tgt) == combis_view(out@) + create_from_spec(
                rv,
                lv,
                i as int,
                tgt,
            ),
        decreases color_layers@.len() - i,
    {
        let layer = &color_layers[i];
        let ghost pre = out@;
        proof {
            assert(lv[i as int] == layer@);
        }
        if is_admissible(restrict_colors, layer.hex_code()) {
            if layer.layer() <= nb_layers_target {
                let base = ColorCombi::new(layer.duplicate());
                proof {
                    assert(base@ =~= seq![layer@]);
                    assert(base@.last() == layer@);
                    assert(base@.drop_last() =~= Seq::<LayerModel>::empty());
                    assert(total_layers_spec(Seq::<LayerModel>::empty()) == 0);
                    assert(total_layers_spec(base@) == layer@.count);
                    assert(combi_partial_spec(base@, rv, tgt));
                }
                let ghost emitk: Seq<Seq<LayerModel>> = if layer@.count == tgt {
                    seq![base@]
                } else {
                    Seq::empty()
                };
                if layer.layer() == nb_layers_target {
                    let emitted = base.duplicate();
                    out.push(emitted);
                    proof {
                        assert(combis_view(out@) =~= combis_view(pre) + emitk);
                    }
                } else {
                    proof {
                        assert(combis_view(out@) =~= combis_view(pre) + emitk);
                    }
                }
                let ghost mid = out@;
                if i + 1 < color_layers.len() {
                    compute_combination(
                        restrict_colors,
                        &base,
                        color_layers,
                        i + 1,
                        nb_layers_target,
                        &mut out,
                    );
                } else {
                    proof {
                        assert(expand_from_spec(rv, base@, lv, i + 1, tgt)
                            =~= Seq::<Seq<LayerModel>>::empty());
                        assert(combis_view(out@) =~= combis_view(mid) + expand_from_spec(
                            rv,
                            base@,
                            lv,
                            i + 1,
                            tgt,
                        ));
                    }
                }
                proof {
                    assert(combis_view(out@) =~= combis_view(pre) + (emitk + expand_from_spec(
                        rv,
                        base@,
                        lv,
                        i + 1,
                        tgt,
                    )));
                    assert(create_from_spec(rv, lv, i as int, tgt) == (emitk + expand_from_spec(
                        rv,
                        base@,
                        lv,
                        i + 1,
                        tgt,
                    )) + create_from_spec(rv, lv, i + 1, tgt));
                }
            } else {
                proof {
                    assert(create_from_spec(rv, lv, i as int, tgt) =~= create_from_spec(
                        rv,
                        lv,
                        i + 1,
                        tgt,
                    ));
                }
            }
        } else {
            proof {
                assert(create_from_spec(rv, lv, i as int, tgt) =~= create_from_spec(
                    rv,
                    lv,
                    i + 1,
                    tgt,
                ));
            }
        }
        i = i + 1;
    }
    proof {
        assert(create_from_spec(rv, lv, color_layers@.len() as int, tgt)
            =~= Seq::<Seq<LayerModel>>::empty());
        assert(combis_view(out@) + Seq::<Seq<LayerModel>>::empty() =~= combis_view(out@));
    }
    out
}

/// The pairwise concatenations of two stack groups, first group outermost:
/// entry `i * |group2| + j` is `group1[i]` followed by `group2[j]`.
pub fn combine_combi_groups(group1: &[ColorCombi], group2: &[ColorCombi]) -> (r: Vec<ColorCombi>)
    requires
        group1@.len() * group2@.len() <= usize::MAX,
    ensures
        r@.len() == group1@.len() * group2@.len(),
        forall|i: int, j: int|
            0 <= i < group1@.len() && 0 <= j < group2@.len() ==> #[trigger] r@[i * group2@.len()
                + j]@ =~= group1@[i]@ + group2@[j]@,
{
    let mut out: Vec<ColorCombi> = Vec::new();
    let mut i: usize = 0;
    while i < group1.len()
        invariant
            i <= group1@.len(),
            group1@.len() * group2@.len() <= usize::MAX,
            out@.len() == i * group2@.len(),
            forall|a: int, b: int|
                0 <= a < i && 0 <= b < group2@.len() ==> #[trigger] out@[a * group2@.len() + b]@
                    =~= group1@[a]@ + group2@[b]@,
        decreases group1@.len() - i,
    {
        let mut j: usize = 0;
        proof {
            assert((i + 1) * group2@.len() == i * group2@.len() + group2@.len())
                by (nonlinear_arith);
            assert(i * group2@.len() + group2@.len() <= group1@.len() * group2@.len())
                by (nonlinear_arith)
                requires
                    i + 1 <= group1@.len(),
                    group2@.len() >= 0,
            ;
        }
        while j < group2.len()
            invariant
                i < group1@.len(),
                j <= group2@.len(),
                group1@.len() * group2@.len() <= usize::MAX,
                i * group2@.len() + group2@.len() <= group1@.len() * group2@.len(),
                out@.len() == i * group2@.len() + j,
                forall|a: int, b: int|
                    0 <= a < i && 0 <= b < group2@.len() ==> #[trigger] out@[a * group2@.len()
                        + b]@ =~= group1@[a]@ + group2@[b]@,
                forall|b: int|
                    0 <= b < j ==> #[trigger] out@[i * group2@.len() + b]@ =~= group1@[i as int]@
                        + group2@[b]@,
            decreases group2@.len() - j,
        {
            out.push(group1[i].combine_with_combi(&group2[j]));
            proof {
                assert forall|a: int, b: int|
                    0 <= a < i && 0 <= b < group2@.len() implies #[trigger] out@[a
                    * group2@.len() + b]@ =~= group1@[a]@ + group2@[b]@ by {
                    assert(a * group2@.len() + b < i * group2@.len()) by (nonlinear_arith)
                        requires
                            0 <= a < i,
                            0 <= b < group2@.len(),
                    ;
                }
            }
            j = j + 1;
        }
        proof {
            assert((i + 1) * group2@.len() == i * group2@.len() + group2@.len())
                by (nonlinear_arith);
        }
        i = i + 1;
    }
    out
}

/// Whether `idxs` realizes the stack `c` inside the layer list: one
/// position per element, in strictly increasing order.
pub open spec fn selection_at_spec(
    c: Seq<LayerModel>,
    layers: Seq<LayerModel>,
    idxs: Seq<int>,
) -> bool {
    &&& idxs.len() == c.len()
    &&& forall|a: int|
        0 <= a < c.len() ==> 0 <= #[trigger] idxs[a] < layers.len() && layers[idxs[a]] == c[a]
    &&& forall|a: int| 0 < a < c.len() ==> idxs[a - 1] < #[trigger] idxs[a]
}

/// Whether a stack is an in-order selection of the layer list with every
/// position at index `j` or later.
pub open spec fn selection_from_spec(c: Seq<LayerModel>, layers: Seq<LayerModel>, j: int) -> bool {
    exists|idxs: Seq<int>|
        #[trigger] selection_at_spec(c, layers, idxs) && (c.len() == 0 || idxs[0] >= j)
}

/// The selection positions of a stack's tail realize the tail from one
/// past the head's position onward.
proof fn lemma_selection_tail(c: Seq<LayerModel>, layers: Seq<LayerModel>, idxs: Seq<int>)
    requires
        c.len() >= 1,
        selection_at_spec(c, layers, idxs),
    ensures
        selection_from_spec(c.drop_first(), layers, idxs[0] + 1),
{
    let c2 = c.drop_first();
    let idxs2 = idxs.subrange(1, idxs.len() as int);
    assert forall|a: int|
        0 <= a < c2.len() implies 0 <= #[trigger] idxs2[a] < layers.len() && layers[idxs2[a]]
        == c2[a] by {
        assert(idxs2[a] == idxs[a + 1]);
        assert(c2[a] == c[a + 1]);
    }
    assert forall|a: int| 0 < a < c2.len() implies idxs2[a - 1] < #[trigger] idxs2[a] by {
        assert(idxs2[a] == idxs[a + 1]);
        assert(idxs2[a - 1] == idxs[a]);
    }
    if c2.len() >= 1 {
        assert(idxs2[0] == idxs[1]);
        assert(idxs[0] < idxs[1]);
    }
    assert(selection_at_spec(c2, layers, idxs2) && (c2.len() == 0 || idxs2[0] >= idxs[0] + 1));
}

/// The depth-first expansion reaches every completion: a partial stack
/// `cur` extended by any admissible in-order selection `rest` of the
/// layers from index `j` onward, summing to the target, is emitted.
proof fn lemma_expand_complete(
    rv: Option<Seq<Seq<char>>>,
    cur: Seq<LayerModel>,
    layers: Seq<LayerModel>,
    j: int,
    target: int,
    rest: Seq<LayerModel>,
)
    requires
        0 <= j,
        rest.len() >= 1,
        combi_ok_spec(cur + rest, rv, target),
        selection_from_spec(rest, layers, j),
    ensures
        expand_from_spec(rv, cur, layers, j, target).contains(cur + rest),
    decreases layers.len() - j,
{
    let full = cur + rest;
    let idxs = choose|idxs: Seq<int>|
        #[trigger] selection_at_spec(rest, layers, idxs) && (rest.len() == 0 || idxs[0] >= j);
    let k = idxs[0];
    assert(0 <= idxs[0] < layers.len() && layers[idxs[0]] == rest[0]);
    let l = layers[j];
    let tail = expand_from_spec(rv, cur, layers, j + 1, target);
    if k == j {
        assert(full[cur.len() as int] == rest[0]);
        assert(restrict_allows_spec(rv, l.hex));
        assert(!contains_hex_spec(cur, l.hex)) by {
            if contains_hex_spec(cur, l.hex) {
                let w = choose|w: int| 0 <= w < cur.len() && #[trigger] cur[w].hex == l.hex;
                assert(full[w].hex == full[cur.len() as int].hex);
                assert(false);
            }
        }
        let nc = cur.push(l);
        let rest2 = rest.drop_first();
        assert(nc =~= cur + seq![rest[0]]);
        crate::palette::color_combi::lemma_total_concat(cur, rest);
        crate::palette::color_combi::lemma_total_push(cur, l);
        crate::palette::color_combi::lemma_total_nonneg(rest2);
        assert(rest =~= seq![rest[0]] + rest2);
        crate::palette::color_combi::lemma_total_concat(seq![rest[0]], rest2);
        assert(total_layers_spec(seq![rest[0]]) == rest[0].count) by {
            assert(seq![rest[0]].drop_last() =~= Seq::<LayerModel>::empty());
            assert(seq![rest[0]].last() == rest[0]);
            assert(total_layers_spec(Seq::<LayerModel>::empty()) == 0);
        }
        assert(total_layers_spec(cur) + l.count <= target);
        let emit: Seq<Seq<LayerModel>> = if total_layers_spec(nc) == target {
            seq![nc]
        } else {
            Seq::<Seq<LayerModel>>::empty()
        };
        let deeper = expand_from_spec(rv, nc, layers, j + 1, target);
        let here = emit + deeper;
        assert(expand_from_spec(rv, cur, layers, j, target) == here + tail);
        if rest.len() == 1 {
            assert(nc =~= full);
            assert(total_layers_spec(nc) == target);
            assert((here + tail)[0] == full);
            assert(expand_from_spec(rv, cur, layers, j, target).contains(full));
        } else {
            assert(nc + rest2 =~= full);
            assert(combi_ok_spec(nc + rest2, rv, target));
            lemma_selection_tail(rest, layers, idxs);
            lemma_expand_complete(rv, nc, layers, j + 1, target, rest2);
            let w = choose|w: int| 0 <= w < deeper.len() && deeper[w] == nc + rest2;
            assert((here + tail)[emit.len() + w] == full);
            assert(expand_from_spec(rv, cur, layers, j, target).contains(full));
        }
    } else {
        assert(selection_from_spec(rest, layers, j + 1)) by {
            assert(selection_at_spec(rest, layers, idxs) && (rest.len() == 0 || idxs[0] >= j
                + 1));
        }
        lemma_expand_complete(rv, cur, layers, j + 1, target, rest);
        let w = choose|w: int| 0 <= w < tail.len() && tail[w] == full;
        let here: Seq<Seq<LayerModel>> = {
            let valid = restrict_allows_spec(rv, l.hex) && !contains_hex_spec(cur, l.hex)
                && total_layers_spec(cur) + l.count <= target;
            if valid {
                let nc = cur.push(l);
                (if total_layers_spec(nc) == target {
                    seq![nc]
                } else {
                    Seq::<Seq<LayerModel>>::empty()
                }) + expand_from_spec(rv, nc, layers, j + 1, target)
            } else {
                Seq::<Seq<LayerModel>>::empty()
            }
        };
        assert(expand_from_spec(rv, cur, layers, j, target) == here + tail);
        assert((here + tail)[here.len() + w] == full);
        assert(expand_from_spec(rv, cur, layers, j, target).contains(full));
    }
}

/// The seeding pass reaches every completion from index `i` onward.
proof fn lemma_create_complete(
    rv: Option<Seq<Seq<char>>>,
    layers: Seq<LayerModel>,
    i: int,
    target: int,
    c: Seq<LayerModel>,
)
    requires
        0 <= i,
        c.len() >= 1,
        combi_ok_spec(c, rv, target),
        selection_from_spec(c, layers, i),
    ensures
        create_from_spec(rv, layers, i, target).contains(c),
    decreases layers.len() - i,
{
    let idxs = choose|idxs: Seq<int>|
        #[trigger] selection_at_spec(c, layers, idxs) && (c.len() == 0 || idxs[0] >= i);
    let k = idxs[0];
    assert(0 <= idxs[0] < layers.len() && layers[idxs[0]] == c[0]);
    let l = layers[i];
    let tail = create_from_spec(rv, layers, i + 1, target);
    if k == i {
        assert(restrict_allows_spec(rv, l.hex));
        let base = seq![l];
        let rest2 = c.drop_first();
        assert(total_layers_spec(base) == l.count) by {
            assert(base.drop_last() =~= Seq::<LayerModel>::empty());
            assert(base.last() == l);
            assert(total_layers_spec(Seq::<LayerModel>::empty()) == 0);
        }
        assert(c =~= base + rest2);
        crate::palette::color_combi::lemma_total_concat(base, rest2);
        crate::palette::color_combi::lemma_total_nonneg(rest2);
        assert(l.count <= target);
        let emit: Seq<Seq<LayerModel>> = if l.count == target {
            seq![base]
        } else {
            Seq::<Seq<LayerModel>>::empty()
        };
        let deeper = expand_from_spec(rv, base, layers, i + 1, target);
        let here = emit + deeper;
        assert(create_from_spec(rv, layers, i, target) == here + tail);
        if c.len() == 1 {
            assert(base =~= c);
            assert(l.count == target);
            assert((here + tail)[0] == c);
            assert(create_from_spec(rv, layers, i, target).contains(c));
        } else {
            assert(base + rest2 =~= c);
            assert(combi_ok_spec(base + rest2, rv, target));
            lemma_selection_tail(c, layers, idxs);
            lemma_expand_complete(rv, base, layers, i + 1, target, rest2);
            let w = choose|w: int| 0 <= w < deeper.len() && deeper[w] == base + rest2;
            assert((here + tail)[emit.len() + w] == c);
            assert(create_from_spec(rv, layers, i, target).contains(c));
        }
    } else {
        assert(selection_from_spec(c, layers, i + 1)) by {
            assert(selection_at_spec(c, layers, idxs) && (c.len() == 0 || idxs[0] >= i + 1));
        }
        lemma_create_complete(rv, layers, i + 1, target, c);
        let w = choose|w: int| 0 <= w < tail.len() && tail[w] == c;
        let here: Seq<Seq<LayerModel>> = if restrict_allows_spec(rv, l.hex) && l.count
            <= target {
            (if l.count == target {
                seq![seq![l]]
            } else {
                Seq::<Seq<LayerModel>>::empty()
            }) + expand_from_spec(rv, seq![l], layers, i + 1, target)
        } else {
            Seq::<Seq<LayerModel>>::empty()
        };
        assert(create_from_spec(rv, layers, i, target) == here + tail);
        assert((here + tail)[here.len() + w] == c);
        assert(create_from_spec(rv, layers, i, target).contains(c));
    }
}

/// Every stack the expansion emits strictly extends the current stack, its
/// first new element is a layer at index `j` or later, and no stack is
/// emitted twice when the layer models are pairwise distinct.
proof fn lemma_expand_unique(
    rv: Option<Seq<Seq<char>>>,
    cur: Seq<LayerModel>,
    layers: Seq<LayerModel>,
    j: int,
    target: int,
)
    requires
        0 <= j,
        forall|a: int, b: int|
            0 <= a < b < layers.len() ==> #[trigger] layers[a] != #[trigger] layers[b],
    ensures
        ({
            let out = expand_from_spec(rv, cur, layers, j, target);
            &&& forall|m: int|
                0 <= m < out.len() ==> (#[trigger] out[m]).len() > cur.len() && out[m].take(
                    cur.len() as int,
                ) == cur
            &&& forall|m: int|
                0 <= m < out.len() ==> exists|k: int|
                    j <= k < layers.len() && (#[trigger] out[m])[cur.len() as int]
                        == #[trigger] layers[k]
            &&& forall|a: int, b: int| 0 <= a < b < out.len() ==> out[a] != out[b]
        }),
    decreases layers.len() - j,
{
    let out = expand_from_spec(rv, cur, layers, j, target);
    if j >= layers.len() {
        assert(out.len() == 0);
    } else {
        let l = layers[j];
        let valid = restrict_allows_spec(rv, l.hex) && !contains_hex_spec(cur, l.hex)
            && total_layers_spec(cur) + l.count <= target;
        let tail = expand_from_spec(rv, cur, layers, j + 1, target);
        lemma_expand_unique(rv, cur, layers, j + 1, target);
        if !valid {
            assert(out =~= tail);
            assert forall|m: int| 0 <= m < out.len() implies exists|k: int|
                j <= k < layers.len() && (#[trigger] out[m])[cur.len() as int]
                    == #[trigger] layers[k] by {
                let k = choose|k: int|
                    j + 1 <= k < layers.len() && (tail[m])[cur.len() as int]
                        == #[trigger] layers[k];
                assert(j <= k < layers.len() && out[m][cur.len() as int] == layers[k]);
            }
        } else {
            let nc = cur.push(l);
            let emit: Seq<Seq<LayerModel>> = if total_layers_spec(nc) == target {
                seq![nc]
            } else {
                Seq::<Seq<LayerModel>>::empty()
            };
            let deeper = expand_from_spec(rv, nc, layers, j + 1, target);
            let here = emit + deeper;
            assert(out == here + tail);
            lemma_expand_unique(rv, nc, layers, j + 1, target);
            assert(nc.take(cur.len() as int) =~= cur);
            assert(nc[cur.len() as int] == l);
            // every element of the here branch extends cur by `l` first
            assert forall|m: int|
                0 <= m < here.len() implies (#[trigger] here[m]).len() > cur.len() && here[m].take(
                cur.len() as int,
            ) == cur && here[m][cur.len() as int] == l by {
                if m < emit.len() {
                    assert(here[m] == nc);
                } else {
                    let e = deeper[m - emit.len()];
                    assert(here[m] == e);
                    assert(e.len() > nc.len() && e.take(nc.len() as int) == nc);
                    assert(e.take(cur.len() as int) =~= e.take(nc.len() as int).take(
                        cur.len() as int,
                    ));
                    assert(e[cur.len() as int] == e.take(nc.len() as int)[cur.len() as int]);
                }
            }
            assert forall|m: int|
                0 <= m < out.len() implies (#[trigger] out[m]).len() > cur.len() && out[m].take(
                cur.len() as int,
            ) == cur by {
                if m < here.len() {
                    assert(out[m] == here[m]);
                } else {
                    assert(out[m] == tail[m - here.len()]);
                }
            }
            assert forall|m: int| 0 <= m < out.len() implies exists|k: int|
                j <= k < layers.len() && (#[trigger] out[m])[cur.len() as int]
                    == #[trigger] layers[k] by {
                if m < here.len() {
                    assert(out[m][cur.len() as int] == layers[j]);
                } else {
                    let e = tail[m - here.len()];
                    assert(out[m] == e);
                    let k = choose|k: int|
                        j + 1 <= k < layers.len() && e[cur.len() as int] == #[trigger] layers[k];
                    assert(j <= k < layers.len() && out[m][cur.len() as int] == layers[k]);
                }
            }
            assert forall|a: int, b: int| 0 <= a < b < out.len() implies out[a] != out[b] by {
                if b < here.len() {
                    // both inside the here branch
                    if a < emit.len() {
                        // the emitted stack against a deeper extension: lengths differ
                        let e = deeper[b - emit.len()];
                        assert(out[a] == nc && out[b] == e);
                        assert(e.len() > nc.len());
                    } else {
                        assert(out[a] == deeper[a - emit.len()] && out[b] == deeper[b
                            - emit.len()]);
                    }
                } else if a >= here.len() {
                    // both inside the tail
                    assert(out[a] == tail[a - here.len()] && out[b] == tail[b - here.len()]);
                } else {
                    // a here branch stack against a tail stack: they differ at the
                    // first extended position, because the layer models differ
                    let e1 = here[a];
                    let e2 = tail[b - here.len()];
                    assert(out[a] == e1 && out[b] == e2);
                    assert(e1[cur.len() as int] == layers[j]);
                    let k = choose|k: int|
                        j + 1 <= k < layers.len() && e2[cur.len() as int] == #[trigger] layers[k];
                    assert(layers[j] != layers[k]);
                    assert(e1[cur.len() as int] != e2[cur.len() as int]);
                }
            }
        }
    }
}

/// Every stack the seeding pass emits is nonempty, starts with a layer at
/// index `i` or later, and no stack is emitted twice when the layer models
/// are pairwise distinct.
proof fn lemma_create_unique(
    rv: Option<Seq<Seq<char>>>,
    layers: Seq<LayerModel>,
    i: int,
    target: int,
)
    requires
        0 <= i,
        forall|a: int, b: int|
            0 <= a < b < layers.len() ==> #[trigger] layers[a] != #[trigger] layers[b],
    ensures
        ({
            let out = create_from_spec(rv, layers, i, target);
            &&& forall|m: int| 0 <= m < out.len() ==> (#[trigger] out[m]).len() >= 1
            &&& forall|m: int|
                0 <= m < out.len() ==> exists|k: int|
                    i <= k < layers.len() && (#[trigger] out[m])[0] == #[trigger] layers[k]
            &&& forall|a: int, b: int| 0 <= a < b < out.len() ==> out[a] != out[b]
        }),
    decreases layers.len() - i,
{
    let out = create_from_spec(rv, layers, i, target);
    if i >= layers.len() {
        assert(out.len() == 0);
    } else {
        let l = layers[i];
        let valid = restrict_allows_spec(rv, l.hex) && l.count <= target;
        let tail = create_from_spec(rv, layers, i + 1, target);
        lemma_create_unique(rv, layers, i + 1, target);
        if !valid {
            assert(out =~= tail);
            assert forall|m: int| 0 <= m < out.len() implies exists|k: int|
                i <= k < layers.len() && (#[trigger] out[m])[0] == #[trigger] layers[k] by {
                let k = choose|k: int|
                    i + 1 <= k < layers.len() && (tail[m])[0] == #[trigger] layers[k];
                assert(i <= k < layers.len() && out[m][0] == layers[k]);
            }
        } else {
            let base = seq![l];
            let emit: Seq<Seq<LayerModel>> = if l.count == target {
                seq![base]
            } else {
                Seq::<Seq<LayerModel>>::empty()
            };
            let deeper = expand_from_spec(rv, base, layers, i + 1, target);
            let here = emit + deeper;
            assert(out == here + tail);
            lemma_expand_unique(rv, base, layers, i + 1, target);
            assert(base[0] == l);
            assert forall|m: int|
                0 <= m < here.len() implies (#[trigger] here[m]).len() >= 1 && here[m][0]
                == l by {
                if m < emit.len() {
                    assert(here[m] == base);
                } else {
                    let e = deeper[m - emit.len()];
                    assert(here[m] == e);
                    assert(e.len() > base.len() && e.take(base.len() as int) == base);
                    assert(e[0] == e.take(base.len() as int)[0]);
                }
            }
            assert forall|m: int| 0 <= m < out.len() implies (#[trigger] out[m]).len() >= 1
                && exists|k: int|
                i <= k < layers.len() && (#[trigger] out[m])[0] == #[trigger] layers[k] by {
                if m < here.len() {
                    assert(out[m] == here[m]);
                    assert(out[m][0] == layers[i]);
                } else {
                    let e = tail[m - here.len()];
                    assert(out[m] == e);
                    let k = choose|k: int|
                        i + 1 <= k < layers.len() && e[0] == #[trigger] layers[k];
                    assert(i <= k < layers.len() && out[m][0] == layers[k]);
                }
            }
            assert forall|a: int, b: int| 0 <= a < b < out.len() implies out[a] != out[b] by {
                if b < here.len() {
                    if a < emit.len() {
                        let e = deeper[b - emit.len()];
                        assert(out[a] == base && out[b] == e);
                        assert(e.len() > base.len());
                    } else {
                        assert(out[a] == deeper[a - emit.len()] && out[b] == deeper[b
                            - emit.len()]);
                    }
                } else if a >= here.len() {
                    assert(out[a] == tail[a - here.len()] && out[b] == tail[b - here.len()]);
                } else {
                    let e1 = here[a];
                    let e2 = tail[b - here.len()];
                    assert(out[a] == e1 && out[b] == e2);
                    assert(e1[0] == layers[i]);
                    let k = choose|k: int|
                        i + 1 <= k < layers.len() && e2[0] == #[trigger] layers[k];
                    assert(layers[i] != layers[k]);
                    assert(e1[0] != e2[0]);
                }
            }
        }
    }
}

/// Every stack the expansion emits extends the current stack by an
/// in-order selection of the layers from index `j` onward.
proof fn lemma_expand_selection(
    rv: Option<Seq<Seq<char>>>,
    cur: Seq<LayerModel>,
    layers: Seq<LayerModel>,
    j: int,
    target: int,
)
    requires
        0 <= j,
    ensures
        ({
            let out = expand_from_spec(rv, cur, layers, j, target);
            forall|m: int|
                0 <= m < out.len() ==> (#[trigger] out[m]).len() > cur.len() && out[m].take(
                    cur.len() as int,
                ) == cur && selection_from_spec(out[m].skip(cur.len() as int), layers, j)
        }),
    decreases layers.len() - j,
{
    let out = expand_from_spec(rv, cur, layers, j, target);
    if j >= layers.len() {
        assert(out.len() == 0);
    } else {
        let l = layers[j];
        let valid = restrict_allows_spec(rv, l.hex) && !contains_hex_spec(cur, l.hex)
            && total_layers_spec(cur) + l.count <= target;
        let tail = expand_from_spec(rv, cur, layers, j + 1, target);
        lemma_expand_selection(rv, cur, layers, j + 1, target);
        assert forall|m: int| 0 <= m < tail.len() implies selection_from_spec(
            (#[trigger] tail[m]).skip(cur.len() as int),
            layers,
            j,
        ) by {
            let ext = tail[m].skip(cur.len() as int);
            let idxs = choose|idxs: Seq<int>|
                #[trigger] selection_at_spec(ext, layers, idxs) && (ext.len() == 0 || idxs[0] >= j
                    + 1);
            assert(selection_at_spec(ext, layers, idxs) && (ext.len() == 0 || idxs[0] >= j));
        }
        if !valid {
            assert(out =~= tail);
        } else {
            let nc = cur.push(l);
            let emit: Seq<Seq<LayerModel>> = if total_layers_spec(nc) == target {
                seq![nc]
            } else {
                Seq::<Seq<LayerModel>>::empty()
            };
            let deeper = expand_from_spec(rv, nc, layers, j + 1, target);
            let here = emit + deeper;
            assert(out == here + tail);
            lemma_expand_selection(rv, nc, layers, j + 1, target);
            assert(nc.take(cur.len() as int) =~= cur);
            assert(nc.skip(cur.len() as int) =~= seq![l]);
            assert(selection_at_spec(seq![l], layers, seq![j]));
            assert(selection_from_spec(seq![l], layers, j));
            assert forall|m: int|
                0 <= m < here.len() implies (#[trigger] here[m]).len() > cur.len()
                && here[m].take(cur.len() as int) == cur && selection_from_spec(
                here[m].skip(cur.len() as int),
                layers,
                j,
            ) by {
                if m < emit.len() {
                    assert(here[m] == nc);
                } else {
                    let e = deeper[m - emit.len()];
                    assert(here[m] == e);
                    assert(e.len() > nc.len() && e.take(nc.len() as int) == nc);
                    assert(e.take(cur.len() as int) =~= e.take(nc.len() as int).take(
                        cur.len() as int,
                    ));
                    let ext2 = e.skip(nc.len() as int);
                    let idxs2 = choose|idxs: Seq<int>|
                        #[trigger] selection_at_spec(ext2, layers, idxs) && (ext2.len() == 0
                            || idxs[0] >= j + 1);
                    let ext = e.skip(cur.len() as int);
                    let idxs = seq![j] + idxs2;
                    assert(ext[0] == e[cur.len() as int]);
                    assert(e[cur.len() as int] == e.take(nc.len() as int)[cur.len() as int]);
                    assert(ext =~= seq![l] + ext2);
                    assert(selection_at_spec(ext, layers, idxs)) by {
                        assert forall|a: int|
                            0 <= a < ext.len() implies 0 <= #[trigger] idxs[a] < layers.len()
                            && layers[idxs[a]] == ext[a] by {
                            if a == 0 {
                                assert(idxs[0] == j && ext[0] == l);
                            } else {
                                assert(idxs[a] == idxs2[a - 1]);
                                assert(ext[a] == ext2[a - 1]);
                            }
                        }
                        assert forall|a: int| 0 < a < ext.len() implies idxs[a - 1]
                            < #[trigger] idxs[a] by {
                            if a == 1 {
                                assert(idxs[0] == j && idxs[1] == idxs2[0]);
                                assert(idxs2[0] >= j + 1);
                            } else {
                                assert(idxs[a] == idxs2[a - 1]);
                                assert(idxs[a - 1] == idxs2[a - 2]);
                            }
                        }
                    }
                    assert(selection_at_spec(ext, layers, idxs) && (ext.len() == 0 || idxs[0]
                        >= j));
                    assert(selection_from_spec(ext, layers, j));
                }
            }
            assert forall|m: int|
                0 <= m < out.len() implies (#[trigger] out[m]).len() > cur.len() && out[m].take(
                cur.len() as int,
            ) == cur && selection_from_spec(out[m].skip(cur.len() as int), layers, j) by {
                if m < here.len() {
                    assert(out[m] == here[m]);
                } else {
                    assert(out[m] == tail[m - here.len()]);
                }
            }
        }
    }
}

/// Every stack the generator emits is an in-order selection of the layer
/// list: together with the generator's own contract this is the soundness
/// half of the enumeration.
pub proof fn lemma_create_multi_combi_selection(
    rv: Option<Seq<Seq<char>>>,
    layers: Seq<LayerModel>,
    target: int,
)
    ensures
        ({
            let out = create_multi_combi_spec(rv, layers, target);
            forall|m: int|
                0 <= m < out.len() ==> selection_from_spec(#[trigger] out[m], layers, 0)
        }),
{
    lemma_create_selection(rv, layers, 0, target);
}

/// Every stack the seeding pass emits is an in-order selection from index
/// `i` onward.
proof fn lemma_create_selection(
    rv: Option<Seq<Seq<char>>>,
    layers: Seq<LayerModel>,
    i: int,
    target: int,
)
    requires
        0 <= i,
    ensures
        ({
            let out = create_from_spec(rv, layers, i, target);
            forall|m: int|
                0 <= m < out.len() ==> selection_from_spec(#[trigger] out[m], layers, i)
        }),
    decreases layers.len() - i,
{
    let out = create_from_spec(rv, layers, i, target);
    if i >= layers.len() {
        assert(out.len() == 0);
    } else {
        let l = layers[i];
        let valid = restrict_allows_spec(rv, l.hex) && l.count <= target;
        let tail = create_from_spec(rv, layers, i + 1, target);
        lemma_create_selection(rv, layers, i + 1, target);
        assert forall|m: int| 0 <= m < tail.len() implies selection_from_spec(
            #[trigger] tail[m],
            layers,
            i,
        ) by {
            let idxs = choose|idxs: Seq<int>|
                #[trigger] selection_at_spec(tail[m], layers, idxs) && (tail[m].len() == 0
                    || idxs[0] >= i + 1);
            assert(selection_at_spec(tail[m], layers, idxs) && (tail[m].len() == 0 || idxs[0]
                >= i));
        }
        if !valid {
            assert(out =~= tail);
        } else {
            let base = seq![l];
            let emit: Seq<Seq<LayerModel>> = if l.count == target {
                seq![base]
            } else {
                Seq::<Seq<LayerModel>>::empty()
            };
            let deeper = expand_from_spec(rv, base, layers, i + 1, target);
            let here = emit + deeper;
            assert(out == here + tail);
            lemma_expand_selection(rv, base, layers, i + 1, target);
            assert(selection_at_spec(base, layers, seq![i]));
            assert(selection_from_spec(base, layers, i));
            assert forall|m: int| 0 <= m < here.len() implies selection_from_spec(
                #[trigger] here[m],
                layers,
                i,
            ) by {
                if m < emit.len() {
                    assert(here[m] == base);
                } else {
                    let e = deeper[m - emit.len()];
                    assert(here[m] == e);
                    assert(e.len() > base.len() && e.take(base.len() as int) == base);
                    let ext2 = e.skip(base.len() as int);
                    let idxs2 = choose|idxs: Seq<int>|
                        #[trigger] selection_at_spec(ext2, layers, idxs) && (ext2.len() == 0
                            || idxs[0] >= i + 1);
                    let idxs = seq![i] + idxs2;
                    assert(e[0] == e.take(base.len() as int)[0]);
                    assert(e =~= base + ext2);
                    assert(selection_at_spec(e, layers, idxs)) by {
                        assert forall|a: int|
                            0 <= a < e.len() implies 0 <= #[trigger] idxs[a] < layers.len()
                            && layers[idxs[a]] == e[a] by {
                            if a == 0 {
                                assert(idxs[0] == i && e[0] == l);
                            } else {
                                assert(idxs[a] == idxs2[a - 1]);
                                assert(e[a] == ext2[a - 1]);
                            }
                        }
                        assert forall|a: int| 0 < a < e.len() implies idxs[a - 1]
                            < #[trigger] idxs[a] by {
                            if a == 1 {
                                assert(idxs[0] == i && idxs[1] == idxs2[0]);
                                assert(idxs2[0] >= i + 1);
                            } else {
                                assert(idxs[a] == idxs2[a - 1]);
                                assert(idxs[a - 1] == idxs2[a - 2]);
                            }
                        }
                    }
                    assert(selection_at_spec(e, layers, idxs) && (e.len() == 0 || idxs[0] >= i));
                    assert(selection_from_spec(e, layers, i));
                }
            }
            assert forall|m: int| 0 <= m < out.len() implies selection_from_spec(
                #[trigger] out[m],
                layers,
                i,
            ) by {
                if m < here.len() {
                    assert(out[m] == here[m]);
                } else {
                    assert(out[m] == tail[m - here.len()]);
                }
            }
        }
    }
}

/// Uniqueness of the combination generator: when the layer models are
/// pairwise distinct, no stack appears twice in the output. Stacks are
/// emitted as in-order selections, so two equal multisets of distinct
/// models would be the same selection: each combination appears exactly
/// once.
pub proof fn lemma_create_multi_combi_unique(
    rv: Option<Seq<Seq<char>>>,
    layers: Seq<LayerModel>,
    target: int,
)
    requires
        forall|a: int, b: int|
            0 <= a < b < layers.len() ==> #[trigger] layers[a] != #[trigger] layers[b],
    ensures
        forall|a: int, b: int|
            0 <= a < b < create_multi_combi_spec(rv, layers, target).len()
                ==> create_multi_combi_spec(rv, layers, target)[a] != create_multi_combi_spec(
                rv,
                layers,
                target,
            )[b],
{
    lemma_create_unique(rv, layers, 0, target);
}

/// Completeness of the combination generator: every stack whose layers are
/// an in-order selection of the layer list, pairwise distinct in hex code,
/// admissible under the restriction, and summing exactly to the target
/// appears in the generator's output. Together with the soundness clauses
/// of the generator itself, the output is exactly these stacks.
pub proof fn lemma_create_multi_combi_complete(
    rv: Option<Seq<Seq<char>>>,
    layers: Seq<LayerModel>,
    target: int,
    c: Seq<LayerModel>,
)
    requires
        c.len() >= 1,
        combi_ok_spec(c, rv, target),
        selection_from_spec(c, layers, 0),
    ensures
        create_multi_combi_spec(rv, layers, target).contains(c),
{
    lemma_create_complete(rv, layers, 0, target, c);
}

} // verus!
