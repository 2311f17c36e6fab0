use vstd::prelude::*;
use crate::cpp::{pair_views, usage_views};
use crate::records::{encloses, row_span, DeclV, RangeInfo, SymbolDeclarationStruct, UsageSymbolInfo, UsageV};

verus! {

/// The innermost declaration whose range lexically encloses the given range:
/// the declarations are scanned in order, and one replaces the best so far
/// only when its row span is strictly smaller, so among declarations of
/// equal span the earliest wins.
pub open spec fn spec_innermost(ds: Seq<(Seq<char>, DeclV)>, u: RangeInfo) -> Option<
    (Seq<char>, DeclV),
>
    decreases ds,
{
    if ds.len() == 0 {
        None
    } else {
        let prev = spec_innermost(ds.drop_last(), u);
        let c = ds.last();
        if encloses(c.1.range, u) && (prev is None || row_span(c.1.range) < row_span(
            prev.unwrap().1.range,
        )) {
            Some(c)
        } else {
            prev
        }
    }
}

/// A usage after linking: bound to the innermost enclosing declaration's
/// symbol path, or left unbound when no declaration encloses it.
pub open spec fn spec_linked_usage(ds: Seq<(Seq<char>, DeclV)>, u: UsageV) -> UsageV {
    match spec_innermost(ds, u.range) {
        Some(p) => UsageV { declaration_symbol_path: Some(p.0), ..u },
        None => u,
    }
}

pub open spec fn spec_link(ds: Seq<(Seq<char>, DeclV)>, us: Seq<UsageV>) -> Seq<UsageV> {
    us.map_values(|u: UsageV| spec_linked_usage(ds, u))
}

/// What the linker guarantees: a chosen declaration is one of the given
/// declarations, it encloses the usage, and no enclosing declaration spans
/// fewer rows; when nothing is chosen, no declaration encloses the usage.
pub proof fn lemma_innermost_is_innermost(ds: Seq<(Seq<char>, DeclV)>, u: RangeInfo)
    ensures
        match spec_innermost(ds, u) {
            Some(p) => {
                &&& ds.contains(p)
                &&& encloses(p.1.range, u)
                &&& forall|k: int|
                    0 <= k < ds.len() && encloses(#[trigger] ds[k].1.range, u) ==> row_span(
                        p.1.range,
                    ) <= row_span(ds[k].1.range)
            },
            None => forall|k: int| 0 <= k < ds.len() ==> !encloses(#[trigger] ds[k].1.range, u),
        },
    decreases ds,
{
    if ds.len() > 0 {
        lemma_innermost_is_innermost(ds.drop_last(), u);
        let front = ds.drop_last();
        assert(forall|k: int| 0 <= k < front.len() ==> front[k] == ds[k]);
        assert(ds.last() == ds[ds.len() - 1]);
        match spec_innermost(ds, u) {
            Some(p) => {
                if spec_innermost(front, u) == Some(p) {
                    assert(front.contains(p) ==> ds.contains(p)) by {
                        if front.contains(p) {
                            let k = choose|k: int| 0 <= k < front.len() && front[k] == p;
                            assert(ds[k] == p);
                        }
                    }
                } else {
                    assert(ds.contains(p)) by {
                        assert(ds[ds.len() - 1] == p);
                    }
                }
            },
            None => {},
        }
    }
}

/// Attaches each usage to the innermost declaration that lexically encloses
/// it, by row range; a usage no declaration encloses is left unbound.
pub fn link_declarations_to_usages(
    declarations: &Vec<(String, SymbolDeclarationStruct)>,
    usages: &Vec<UsageSymbolInfo>,
) -> (r: Vec<UsageSymbolInfo>)
    ensures
        usage_views(r@) == spec_link(pair_views(declarations@), usage_views(usages@)),
{
    let ghost dsv = pair_views(declarations@);
    let mut out: Vec<UsageSymbolInfo> = Vec::new();
    let mut j: usize = 0;
    while j < usages.len()
        invariant
            j <= usages.len(),
            dsv == pair_views(declarations@),
            out@.len() == j,
            forall|k: int|
                0 <= k < j ==> out@[k]@ == spec_linked_usage(dsv, usage_views(usages@)[k]),
        decreases usages.len() - j,
    {
        let range = usages[j].range;
        let mut best: Option<usize> = None;
        let mut i: usize = 0;
        while i < declarations.len()
            invariant
                i <= declarations.len(),
                dsv == pair_views(declarations@),
                match best {
                    None => (spec_innermost(dsv.take(i as int), range) is None),
                    Some(b) => b < i && spec_innermost(dsv.take(i as int), range) == Some(
                        dsv[b as int],
                    ),
                },
            decreases declarations.len() - i,
        {
            proof {
                assert(dsv.take(i + 1).drop_last() =~= dsv.take(i as int));
                assert(dsv.take(i + 1).last() == dsv[i as int]);
            }
            let d = &declarations[i].1;
            let enclosing = d.definition_info.range.start_row <= range.start_row
                && d.definition_info.range.end_row >= range.end_row;
            if enclosing {
                let replace = match best {
                    None => true,
                    Some(b) => {
                        let bd = &declarations[b].1;
                        (d.definition_info.range.end_row as u128)
                            + (bd.definition_info.range.start_row as u128) < (
                        bd.definition_info.range.end_row as u128) + (
                        d.definition_info.range.start_row as u128)
                    },
                };
                if replace {
                    best = Some(i);
                }
            }
            i = i + 1;
        }
        proof {
            assert(dsv.take(dsv.len() as int) =~= dsv);
        }
        let mut linked = usages[j].duplicate();
        match best {
            Some(b) => {
                linked.set_definition_meta_path(declarations[b].0.clone());
            },
            None => {},
        }
        out.push(linked);
        j = j + 1;
    }
    proof {
        assert(usage_views(out@) =~= spec_link(dsv, usage_views(usages@)));
    }
    out
}


/// What the linker guarantees of each freshly parsed usage: when it sets a
/// declaration path, a declaration under that path stands among the given
/// ones, its range lexically encloses the usage's range, and no enclosing
/// declaration spans fewer rows; when it sets none, no declaration encloses
/// the usage.
pub proof fn lemma_linked_usage_enclosed(ds: Seq<(Seq<char>, DeclV)>, u: UsageV)
    requires
        u.declaration_symbol_path is None,
    ensures
        match spec_linked_usage(ds, u).declaration_symbol_path {
            Some(d) => exists|i: int|
                0 <= i < ds.len() && (#[trigger] ds[i]).0 == d && encloses(ds[i].1.range, u.range)
                    && (forall|k: int|
                    0 <= k < ds.len() && encloses(#[trigger] ds[k].1.range, u.range) ==> row_span(
                        ds[i].1.range,
                    ) <= row_span(ds[k].1.range)),
            None => forall|k: int| 0 <= k < ds.len() ==> !encloses(#[trigger] ds[k].1.range, u.range),
        },
{
    lemma_innermost_is_innermost(ds, u.range);
    match spec_innermost(ds, u.range) {
        Some(p) => {
            let i = choose|i: int| 0 <= i < ds.len() && ds[i] == p;
            assert(ds[i].0 == p.0 && encloses(ds[i].1.range, u.range));
        },
        None => {},
    }
}

} // verus!
