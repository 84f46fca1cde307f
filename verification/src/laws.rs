//! Laws of the renderer: order preservation, the coalescing of uniform runs
//! of list items into a single container, the break between runs of
//! different list families, and the tolerance of missing references.

use vstd::prelude::*;
use crate::blocks::{is_list_kind, same_list_family, BlockRecord, BlockValue};
use crate::renderer::{
    spec_children_fold, spec_render, spec_render_children, spec_render_wrapper,
};

verus! {

/// Whether an identifier resolves in the table to a renderable block.
pub open spec fn resolves(table: Map<Seq<char>, BlockRecord>, id: Seq<char>) -> bool {
    table.contains_key(id) && table[id] is Resolved
}

/// The renderable block an identifier resolves to.
pub open spec fn value_at(table: Map<Seq<char>, BlockRecord>, id: Seq<char>) -> BlockValue {
    table[id]->Resolved_0
}

/// The blocks a sequence of identifiers resolves to, in order.
pub open spec fn members_of(table: Map<Seq<char>, BlockRecord>, ids: Seq<String>) -> Seq<
    BlockValue,
> {
    Seq::new(ids.len(), |j: int| value_at(table, ids[j]@))
}

/// Each identifier's own full rendering, in order, concatenated.
pub open spec fn concat_renders(
    table: Map<Seq<char>, BlockRecord>,
    ids: Seq<String>,
    fuel: nat,
) -> Seq<char>
    decreases ids.len(),
{
    if ids.len() == 0 {
        Seq::empty()
    } else {
        spec_render(table, ids[0]@, fuel) + concat_renders(table, ids.drop_first(), fuel)
    }
}

/// A run of identifiers that all resolve to list items of the open group's
/// family is absorbed into the group, and the fold goes on behind the run
/// with the enlarged group still open.
proof fn lemma_fold_absorbs_run(
    table: Map<Seq<char>, BlockRecord>,
    run: Seq<String>,
    rest: Seq<String>,
    pending: Seq<BlockValue>,
    fuel: nat,
)
    requires
        pending.len() > 0,
        forall|j: int| 0 <= j < run.len() ==> resolves(table, run[j]@),
        forall|j: int|
            0 <= j < run.len() ==> same_list_family(pending[0].block, value_at(table, run[j]@).block),
    ensures
        spec_children_fold(table, run + rest, pending, fuel) == spec_children_fold(
            table,
            rest,
            pending + members_of(table, run),
            fuel,
        ),
    decreases run.len(),
{
    if run.len() == 0 {
        assert(run + rest =~= rest);
        assert(pending + members_of(table, run) =~= pending);
    } else {
        let v = value_at(table, run[0]@);
        assert(is_list_kind(v.block));
        assert((run + rest)[0] == run[0]);
        assert((run + rest).drop_first() =~= run.drop_first() + rest);
        assert(forall|j: int| 0 <= j < run.drop_first().len() ==> run.drop_first()[j] == run[j + 1]);
        lemma_fold_absorbs_run(table, run.drop_first(), rest, pending.push(v), fuel);
        assert(pending.push(v) + members_of(table, run.drop_first()) =~= pending + members_of(
            table,
            run,
        ));
    }
}

/// Grouping idempotence on uniform runs: a nonempty children sequence made
/// solely of list items of one family renders as exactly one enclosing list
/// container holding every member, not one container per member.
pub proof fn lemma_uniform_run_one_container(
    table: Map<Seq<char>, BlockRecord>,
    ids: Seq<String>,
    fuel: nat,
)
    requires
        ids.len() > 0,
        forall|j: int| 0 <= j < ids.len() ==> resolves(table, ids[j]@),
        is_list_kind(value_at(table, ids[0]@).block),
        forall|j: int|
            0 <= j < ids.len() ==> same_list_family(
                value_at(table, ids[0]@).block,
                value_at(table, ids[j]@).block,
            ),
    ensures
        spec_render_children(table, ids, fuel) == "<div>"@ + spec_render_wrapper(
            table,
            members_of(table, ids),
            fuel,
        ) + "</div>"@,
{
    let v0 = value_at(table, ids[0]@);
    let rest = ids.drop_first();
    assert(forall|j: int| 0 <= j < rest.len() ==> rest[j] == ids[j + 1]);
    assert(rest + Seq::<String>::empty() =~= rest);
    lemma_fold_absorbs_run(table, rest, Seq::empty(), seq![v0], fuel);
    assert(seq![v0] + members_of(table, rest) =~= members_of(table, ids));
    assert(spec_children_fold(table, ids, Seq::empty(), fuel) == spec_render_wrapper(
        table,
        Seq::empty(),
        fuel,
    ) + spec_children_fold(table, rest, seq![v0], fuel));
    assert(spec_children_fold(table, ids, Seq::empty(), fuel) =~= spec_render_wrapper(
        table,
        members_of(table, ids),
        fuel,
    ));
}

/// Grouping break on kind change: a nonempty run of one list family followed
/// by a nonempty run of the other renders as exactly two sibling list
/// containers, each holding its own run's members.
pub proof fn lemma_kind_change_two_containers(
    table: Map<Seq<char>, BlockRecord>,
    ids1: Seq<String>,
    ids2: Seq<String>,
    fuel: nat,
)
    requires
        ids1.len() > 0,
        ids2.len() > 0,
        forall|j: int| 0 <= j < ids1.len() ==> resolves(table, ids1[j]@),
        forall|j: int| 0 <= j < ids2.len() ==> resolves(table, ids2[j]@),
        is_list_kind(value_at(table, ids1[0]@).block),
        is_list_kind(value_at(table, ids2[0]@).block),
        forall|j: int|
            0 <= j < ids1.len() ==> same_list_family(
                value_at(table, ids1[0]@).block,
                value_at(table, ids1[j]@).block,
            ),
        forall|j: int|
            0 <= j < ids2.len() ==> same_list_family(
                value_at(table, ids2[0]@).block,
                value_at(table, ids2[j]@).block,
            ),
        !same_list_family(value_at(table, ids1[0]@).block, value_at(table, ids2[0]@).block),
    ensures
        spec_render_children(table, ids1 + ids2, fuel) == "<div>"@ + (spec_render_wrapper(
            table,
            members_of(table, ids1),
            fuel,
        ) + spec_render_wrapper(table, members_of(table, ids2), fuel)) + "</div>"@,
{
    let ids = ids1 + ids2;
    let v0 = value_at(table, ids1[0]@);
    let w0 = value_at(table, ids2[0]@);
    let m1 = members_of(table, ids1);
    let m2 = members_of(table, ids2);
    assert(ids[0] == ids1[0]);
    assert(ids.drop_first() =~= ids1.drop_first() + ids2);
    assert(forall|j: int|
        0 <= j < ids1.drop_first().len() ==> ids1.drop_first()[j] == ids1[j + 1]);
    lemma_fold_absorbs_run(table, ids1.drop_first(), ids2, seq![v0], fuel);
    assert(seq![v0] + members_of(table, ids1.drop_first()) =~= m1);
    assert(spec_children_fold(table, ids, Seq::empty(), fuel) == spec_render_wrapper(
        table,
        Seq::empty(),
        fuel,
    ) + spec_children_fold(table, ids2, m1, fuel));
    assert(m1[0] == v0);
    assert(ids2.drop_first() + Seq::<String>::empty() =~= ids2.drop_first());
    assert(forall|j: int|
        0 <= j < ids2.drop_first().len() ==> ids2.drop_first()[j] == ids2[j + 1]);
    lemma_fold_absorbs_run(table, ids2.drop_first(), Seq::empty(), seq![w0], fuel);
    assert(seq![w0] + members_of(table, ids2.drop_first()) =~= m2);
    assert(spec_children_fold(table, ids2, m1, fuel) == spec_render_wrapper(table, m1, fuel)
        + spec_children_fold(table, ids2.drop_first(), seq![w0], fuel));
    assert(spec_children_fold(table, ids, Seq::empty(), fuel) =~= spec_render_wrapper(
        table,
        m1,
        fuel,
    ) + spec_render_wrapper(table, m2, fuel));
}

/// Missing-reference tolerance at the fold: an identifier that is missing
/// from the table, or resolves to a non-renderable record, contributes
/// nothing and does not break an open group, wherever it stands.
proof fn lemma_fold_skips_missing(
    table: Map<Seq<char>, BlockRecord>,
    ids1: Seq<String>,
    m: String,
    ids2: Seq<String>,
    pending: Seq<BlockValue>,
    fuel: nat,
)
    requires
        !resolves(table, m@),
    ensures
        spec_children_fold(table, ids1 + seq![m] + ids2, pending, fuel) == spec_children_fold(
            table,
            ids1 + ids2,
            pending,
            fuel,
        ),
    decreases ids1.len(),
{
    if ids1.len() == 0 {
        assert(ids1 + seq![m] + ids2 =~= seq![m] + ids2);
        assert((seq![m] + ids2)[0] == m);
        assert((seq![m] + ids2).drop_first() =~= ids2);
        assert(ids1 + ids2 =~= ids2);
    } else {
        let with_m = ids1 + seq![m] + ids2;
        let without_m = ids1 + ids2;
        let h = ids1[0];
        assert(with_m[0] == h);
        assert(without_m[0] == h);
        assert(with_m.drop_first() =~= ids1.drop_first() + seq![m] + ids2);
        assert(without_m.drop_first() =~= ids1.drop_first() + ids2);
        if resolves(table, h@) {
            let v = value_at(table, h@);
            if is_list_kind(v.block) {
                if pending.len() > 0 && same_list_family(pending[0].block, v.block) {
                    lemma_fold_skips_missing(
                        table,
                        ids1.drop_first(),
                        m,
                        ids2,
                        pending.push(v),
                        fuel,
                    );
                } else {
                    lemma_fold_skips_missing(table, ids1.drop_first(), m, ids2, seq![v], fuel);
                }
            } else {
                lemma_fold_skips_missing(table, ids1.drop_first(), m, ids2, Seq::empty(), fuel);
            }
        } else {
            lemma_fold_skips_missing(table, ids1.drop_first(), m, ids2, pending, fuel);
        }
    }
}

/// Missing-reference tolerance: a children sequence holding one identifier
/// that is missing from the table (or resolves to a non-renderable record)
/// renders identically to the same sequence with that identifier removed.
pub proof fn lemma_missing_reference(
    table: Map<Seq<char>, BlockRecord>,
    ids1: Seq<String>,
    m: String,
    ids2: Seq<String>,
    fuel: nat,
)
    requires
        !resolves(table, m@),
    ensures
        spec_render_children(table, ids1 + seq![m] + ids2, fuel) == spec_render_children(
            table,
            ids1 + ids2,
            fuel,
        ),
{
    lemma_fold_skips_missing(table, ids1, m, ids2, Seq::empty(), fuel);
}

/// Order preservation at the fold: while no identifier resolves to a list
/// item, no group ever opens, and the emitted fragments are exactly each
/// identifier's own rendering, in sequence order.
proof fn lemma_fold_in_order(
    table: Map<Seq<char>, BlockRecord>,
    ids: Seq<String>,
    fuel: nat,
)
    requires
        forall|j: int|
            0 <= j < ids.len() ==> !(resolves(table, ids[j]@) && is_list_kind(
                value_at(table, ids[j]@).block,
            )),
    ensures
        spec_children_fold(table, ids, Seq::empty(), fuel) == concat_renders(table, ids, fuel),
    decreases ids.len(),
{
    if ids.len() > 0 {
        let h = ids[0];
        assert(forall|j: int| 0 <= j < ids.drop_first().len() ==> ids.drop_first()[j] == ids[j + 1]);
        lemma_fold_in_order(table, ids.drop_first(), fuel);
        if resolves(table, h@) {
            let v = value_at(table, h@);
            assert(!is_list_kind(v.block));
            assert(spec_children_fold(table, ids, Seq::empty(), fuel) == spec_render_wrapper(
                table,
                Seq::empty(),
                fuel,
            ) + spec_render(table, h@, fuel) + spec_children_fold(
                table,
                ids.drop_first(),
                Seq::empty(),
                fuel,
            ));
            assert(spec_children_fold(table, ids, Seq::empty(), fuel) =~= concat_renders(
                table,
                ids,
                fuel,
            ));
        } else {
            assert(spec_render(table, h@, fuel) == Seq::<char>::empty());
            assert(spec_children_fold(table, ids, Seq::empty(), fuel) == spec_children_fold(
                table,
                ids.drop_first(),
                Seq::empty(),
                fuel,
            ));
            assert(spec_children_fold(table, ids, Seq::empty(), fuel) =~= concat_renders(
                table,
                ids,
                fuel,
            ));
        }
    } else {
        assert(spec_children_fold(table, ids, Seq::empty(), fuel) == spec_render_wrapper(
            table,
            Seq::empty(),
            fuel,
        ));
        assert(spec_children_fold(table, ids, Seq::empty(), fuel) =~= concat_renders(
            table,
            ids,
            fuel,
        ));
    }
}

/// Order preservation: for a children sequence with no list items among it,
/// the combined fragment is the container around each child's own rendering,
/// in exactly the sequence's order.
pub proof fn lemma_order_preserved(
    table: Map<Seq<char>, BlockRecord>,
    ids: Seq<String>,
    fuel: nat,
)
    requires
        forall|j: int|
            0 <= j < ids.len() ==> !(resolves(table, ids[j]@) && is_list_kind(
                value_at(table, ids[j]@).block,
            )),
    ensures
        spec_render_children(table, ids, fuel) == "<div>"@ + concat_renders(table, ids, fuel)
            + "</div>"@,
{
    lemma_fold_in_order(table, ids, fuel);
}

} // verus!
