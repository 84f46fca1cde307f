//! The renderer: the formatting resolver, the block dispatcher, the sibling
//! grouping fold, the group wrapper and the tree walker, each verified
//! against a specification-level model of the markup it emits.
//!
//! Rendering never fails: a missing or non-renderable reference yields empty
//! markup, an unrecognized block kind yields a visible placeholder, and the
//! recursion is bounded by one level of nesting per table entry, so a cyclic
//! table (which the caller is expected not to supply) still terminates with
//! empty markup below that depth.

use vstd::prelude::*;
use crate::blocks::{
    is_list_kind, same_list_family, BlockKind, BlockRecord, BlockValue, FormatInstruction,
    FormattedText, PageProperties, StyleKind, TextProperties,
};
use crate::markup::{dec_rep, escape, escape_text, usize_to_dec};
use crate::table::BlockTable;

verus! {

/// What one formatting instruction wraps around already-rendered inner
/// markup: bold and italic wrap, everything else passes through unchanged.
pub open spec fn apply_instruction(inner: Seq<char>, f: FormatInstruction) -> Seq<char> {
    match f {
        FormatInstruction::NoContext(StyleKind::Bold) => "<b>"@ + inner + "</b>"@,
        FormatInstruction::NoContext(StyleKind::Italic) => "<em>"@ + inner + "</em>"@,
        _ => inner,
    }
}

/// Instructions applied in sequence, each wrapping the previous result, so
/// the first instruction ends up innermost.
pub open spec fn apply_instructions(inner: Seq<char>, fs: Seq<FormatInstruction>) -> Seq<char>
    decreases fs.len(),
{
    if fs.len() == 0 {
        inner
    } else {
        apply_instructions(apply_instruction(inner, fs[0]), fs.drop_first())
    }
}

/// One text run at position `i`: without formatting the escaped text alone;
/// with formatting the wrapped text inside a positional span carrying the
/// run's index.
pub open spec fn spec_text_run(run: FormattedText, i: nat) -> Seq<char> {
    match run.formatting {
        None => escape(run.text@),
        Some(fs) => "<span data-token-index=\""@ + dec_rep(i) + "\">"@ + apply_instructions(
            escape(run.text@),
            fs@,
        ) + "</span>"@,
    }
}

/// An ordered sequence of text runs, each at its position index, concatenated.
pub open spec fn spec_render_text(runs: Seq<FormattedText>) -> Seq<char>
    decreases runs.len(),
{
    if runs.len() == 0 {
        Seq::empty()
    } else {
        spec_render_text(runs.drop_last()) + spec_text_run(runs.last(), (runs.len() - 1) as nat)
    }
}

/// The title markup of optional text properties: empty when absent.
pub open spec fn spec_opt_title(p: Option<TextProperties>) -> Seq<char> {
    match p {
        Some(tp) => spec_render_text(tp.title@),
        None => Seq::empty(),
    }
}

/// The markup skeleton of one block kind. Kinds without a dedicated renderer
/// degrade to a visible placeholder rather than failing.
pub open spec fn spec_render_block(k: BlockKind) -> Seq<char> {
    match k {
        BlockKind::Page { properties } => "<h1 class=\"notion-page-block\">"@ + spec_render_text(
            properties.title@,
        ) + "</h1>"@,
        BlockKind::Text { properties } => "<p class=\"notion-text-block\">"@ + spec_opt_title(
            properties,
        ) + "</p>"@,
        BlockKind::BulletedList { properties } => "<li class=\"notion-bulleted_list-block\">"@
            + spec_opt_title(properties) + "</li>"@,
        _ => "<h1>Could not render!</h1>"@,
    }
}

/// The rendering of one identifier: empty when it is missing from the table
/// or resolves to a non-renderable record; otherwise the block's skeleton,
/// followed (for container blocks, while recursion depth remains) by the
/// rendering of its children.
pub open spec fn spec_render(
    table: Map<Seq<char>, BlockRecord>,
    id: Seq<char>,
    fuel: nat,
) -> Seq<char>
    decreases fuel, 0int, 0int,
{
    if table.contains_key(id) {
        match table[id] {
            BlockRecord::Resolved(v) => match v.content {
                None => spec_render_block(v.block),
                Some(children) => if fuel > 0 {
                    spec_render_block(v.block) + spec_render_children(
                        table,
                        children@,
                        (fuel - 1) as nat,
                    )
                } else {
                    spec_render_block(v.block)
                },
            },
            BlockRecord::Other => Seq::empty(),
        }
    } else {
        Seq::empty()
    }
}

/// The members of a completed group, each rendered by the full tree walker,
/// concatenated.
pub open spec fn spec_wrapper_items(
    table: Map<Seq<char>, BlockRecord>,
    members: Seq<BlockValue>,
    fuel: nat,
) -> Seq<char>
    decreases fuel, 1int, members.len(),
{
    if members.len() == 0 {
        Seq::empty()
    } else {
        spec_render(table, members[0].id@, fuel) + spec_wrapper_items(
            table,
            members.drop_first(),
            fuel,
        )
    }
}

/// A completed group of same-kind list items as one enclosing list
/// container; an empty group, or one whose first member is no list item,
/// renders as nothing.
pub open spec fn spec_render_wrapper(
    table: Map<Seq<char>, BlockRecord>,
    members: Seq<BlockValue>,
    fuel: nat,
) -> Seq<char>
    decreases fuel, 2int, 0int,
{
    if members.len() == 0 {
        Seq::empty()
    } else if is_list_kind(members[0].block) {
        "<ul>"@ + spec_wrapper_items(table, members, fuel) + "</ul>"@
    } else {
        Seq::empty()
    }
}

/// The grouping fold over the remaining sibling identifiers, with `pending`
/// the open group of consecutive same-family list items seen so far:
/// - an identifier that is missing or non-renderable contributes nothing and
///   does not break the open group;
/// - a list item of the open group's family is absorbed into the group;
/// - a list item of another family, or with no open group, flushes the open
///   group and starts a fresh one with itself;
/// - any other renderable block flushes the open group and then emits its own
///   full rendering;
/// - at the end the open group is flushed.
pub open spec fn spec_children_fold(
    table: Map<Seq<char>, BlockRecord>,
    ids: Seq<String>,
    pending: Seq<BlockValue>,
    fuel: nat,
) -> Seq<char>
    decreases fuel, 3int, ids.len(),
{
    if ids.len() == 0 {
        spec_render_wrapper(table, pending, fuel)
    } else {
        let id = ids[0]@;
        let rest = ids.drop_first();
        if table.contains_key(id) && table[id] is Resolved {
            let v = table[id]->Resolved_0;
            if is_list_kind(v.block) {
                if pending.len() > 0 && same_list_family(pending[0].block, v.block) {
                    spec_children_fold(table, rest, pending.push(v), fuel)
                } else {
                    spec_render_wrapper(table, pending, fuel) + spec_children_fold(
                        table,
                        rest,
                        seq![v],
                        fuel,
                    )
                }
            } else {
                spec_render_wrapper(table, pending, fuel) + spec_render(table, id, fuel)
                    + spec_children_fold(table, rest, Seq::empty(), fuel)
            }
        } else {
            spec_children_fold(table, rest, pending, fuel)
        }
    }
}

/// An ordered sequence of sibling identifiers rendered as one combined
/// fragment inside a generic container element.
pub open spec fn spec_render_children(
    table: Map<Seq<char>, BlockRecord>,
    ids: Seq<String>,
    fuel: nat,
) -> Seq<char>
    decreases fuel, 4int, 0int,
{
    "<div>"@ + spec_children_fold(table, ids, Seq::empty(), fuel) + "</div>"@
}

/// The plain values behind a sequence of block references.
pub open spec fn values_of(s: Seq<&BlockValue>) -> Seq<BlockValue> {
    Seq::new(s.len(), |i: int| *s[i])
}

/// Whether a block takes part in sibling grouping: true exactly for the two
/// list-item kinds.
pub fn needs_grouping(value: &BlockKind) -> (r: bool)
    ensures
        r == is_list_kind(*value),
{
    match value {
        BlockKind::BulletedList { properties: _ } | BlockKind::NumberedList => true,
        _ => false,
    }
}

/// Whether a block can join the open group: true exactly when the group is
/// nonempty and its first member belongs to the same list family.
pub fn can_be_grouped(value: &BlockKind, vector: &Vec<&BlockValue>) -> (r: bool)
    ensures
        r == (vector@.len() > 0 && same_list_family(values_of(vector@)[0].block, *value)),
{
    if vector.len() == 0 {
        false
    } else {
        let first = vector[0];
        match (&first.block, value) {
            (
                BlockKind::BulletedList { properties: _ },
                BlockKind::BulletedList { properties: _ },
            ) => true,
            (BlockKind::NumberedList, BlockKind::NumberedList) => true,
            _ => false,
        }
    }
}

/// The formatting resolver: renders an ordered sequence of text runs,
/// preserving order, escaping raw text, and wrapping formatted runs in a
/// positional span.
pub fn render_text(text: &Vec<FormattedText>) -> (r: String)
    ensures
        r@ == spec_render_text(text@),
{
    let mut out = String::new();
    let mut i: usize = 0;
    proof {
        assert(text@.take(0int) =~= Seq::<FormattedText>::empty());
    }
    while i < text.len()
        invariant
            0 <= i <= text@.len(),
            out@ == spec_render_text(text@.take(i as int)),
        decreases text@.len() - i,
    {
        let run = &text[i];
        match &run.formatting {
            None => {
                let piece = escape_text(run.text.as_str());
                out.append(piece.as_str());
            },
            Some(fs) => {
                let mut cur = escape_text(run.text.as_str());
                let mut j: usize = 0;
                proof {
                    assert(fs@.take(0int) =~= Seq::<FormatInstruction>::empty());
                }
                while j < fs.len()
                    invariant
                        0 <= j <= fs@.len(),
                        cur@ == apply_instructions(escape(run.text@), fs@.take(j as int)),
                    decreases fs@.len() - j,
                {
                    let mut wrapped = match &fs[j] {
                        FormatInstruction::NoContext(StyleKind::Bold) => {
                            let mut w = "<b>".to_owned();
                            w.append(cur.as_str());
                            w.append("</b>");
                            w
                        },
                        FormatInstruction::NoContext(StyleKind::Italic) => {
                            let mut w = "<em>".to_owned();
                            w.append(cur.as_str());
                            w.append("</em>");
                            w
                        },
                        _ => cur,
                    };
                    proof {
                        lemma_apply_instructions_step(escape(run.text@), fs@, j as int);
                        assert(wrapped@ == apply_instructions(
                            escape(run.text@),
                            fs@.take(j as int + 1),
                        ));
                    }
                    cur = wrapped;
                    j += 1;
                }
                proof {
                    assert(fs@.take(fs@.len() as int) =~= fs@);
                }
                let mut piece = "<span data-token-index=\"".to_owned();
                let index = usize_to_dec(i);
                piece.append(index.as_str());
                piece.append("\">");
                piece.append(cur.as_str());
                piece.append("</span>");
                proof {
                    assert(piece@ =~= spec_text_run(text@[i as int], i as nat));
                }
                out.append(piece.as_str());
            },
        }
        proof {
            assert(text@.take(i as int + 1).drop_last() =~= text@.take(i as int));
            assert(text@.take(i as int + 1).last() == text@[i as int]);
            assert(out@ =~= spec_render_text(text@.take(i as int + 1)));
        }
        i += 1;
    }
    proof {
        assert(text@.take(text@.len() as int) =~= text@);
    }
    out
}

proof fn lemma_apply_instructions_step(inner: Seq<char>, fs: Seq<FormatInstruction>, j: int)
    requires
        0 <= j < fs.len(),
    ensures
        apply_instructions(inner, fs.take(j + 1)) == apply_instruction(
            apply_instructions(inner, fs.take(j)),
            fs[j],
        ),
    decreases j,
{
    if j == 0 {
        assert(fs.take(1)[0] == fs[0]);
        assert(fs.take(1).drop_first() =~= fs.take(0));
        assert(fs.take(0) =~= Seq::<FormatInstruction>::empty());
        assert(apply_instructions(inner, fs.take(1)) == apply_instructions(
            apply_instruction(inner, fs[0]),
            Seq::empty(),
        ));
    } else {
        lemma_apply_instructions_step(apply_instruction(inner, fs[0]), fs.drop_first(), j - 1);
        assert(fs.take(j + 1)[0] == fs[0]);
        assert(fs.take(j + 1).drop_first() =~= fs.drop_first().take(j));
        assert(fs.take(j).drop_first() =~= fs.drop_first().take(j - 1));
        assert(fs.drop_first()[j - 1] == fs[j]);
    }
}

fn render_page(properties: &PageProperties) -> (r: String)
    ensures
        r@ == spec_render_block(BlockKind::Page { properties: *properties }),
{
    let mut r = "<h1 class=\"notion-page-block\">".to_owned();
    let title = render_text(&properties.title);
    r.append(title.as_str());
    r.append("</h1>");
    r
}

fn render_text_block(properties: &Option<TextProperties>) -> (r: String)
    ensures
        r@ == spec_render_block(BlockKind::Text { properties: *properties }),
{
    let mut r = "<p class=\"notion-text-block\">".to_owned();
    match properties {
        Some(p) => {
            let title = render_text(&p.title);
            r.append(title.as_str());
        },
        None => {},
    }
    r.append("</p>");
    r
}

fn render_bulleted_list(properties: &Option<TextProperties>) -> (r: String)
    ensures
        r@ == spec_render_block(BlockKind::BulletedList { properties: *properties }),
{
    let mut r = "<li class=\"notion-bulleted_list-block\">".to_owned();
    match properties {
        Some(p) => {
            let title = render_text(&p.title);
            r.append(title.as_str());
        },
        None => {},
    }
    r.append("</li>");
    r
}

/// The block dispatcher: one block kind's markup skeleton. A kind without a
/// dedicated renderer yields the visible placeholder rather than failing.
pub fn render_block(block: &BlockKind) -> (r: String)
    ensures
        r@ == spec_render_block(*block),
        !(*block is Page || *block is Text || *block is BulletedList) ==> r@
            == "<h1>Could not render!</h1>"@,
{
    match block {
        BlockKind::Page { properties } => render_page(properties),
        BlockKind::Text { properties } => render_text_block(properties),
        BlockKind::BulletedList { properties } => render_bulleted_list(properties),
        _ => "<h1>Could not render!</h1>".to_owned(),
    }
}

fn render_at(id: &String, blocks: &BlockTable, fuel: usize) -> (r: String)
    ensures
        r@ == spec_render(blocks@, id@, fuel as nat),
    decreases fuel, 0int,
{
    match blocks.get(id) {
        None => String::new(),
        Some(record) => match record {
            BlockRecord::Other => String::new(),
            BlockRecord::Resolved(v) => {
                let mut r = render_block(&v.block);
                match &v.content {
                    None => r,
                    Some(children) => {
                        if fuel > 0 {
                            let kids = render_children_at(children, blocks, fuel - 1);
                            r.append(kids.as_str());
                            r
                        } else {
                            r
                        }
                    },
                }
            },
        },
    }
}

fn render_wrapper_at(vector: &Vec<&BlockValue>, blocks: &BlockTable, fuel: usize) -> (r: String)
    ensures
        r@ == spec_render_wrapper(blocks@, values_of(vector@), fuel as nat),
    decreases fuel, 1int,
{
    if vector.len() == 0 {
        return String::new();
    }
    let first = vector[0];
    if !needs_grouping(&first.block) {
        return String::new();
    }
    let ghost members = values_of(vector@);
    let mut r = "<ul>".to_owned();
    let mut i: usize = 0;
    proof {
        assert(members.skip(0int) =~= members);
    }
    while i < vector.len()
        invariant
            0 <= i <= vector@.len(),
            members == values_of(vector@),
            "<ul>"@ + spec_wrapper_items(blocks@, members, fuel as nat) == r@ + spec_wrapper_items(
                blocks@,
                members.skip(i as int),
                fuel as nat,
            ),
        decreases vector@.len() - i,
    {
        let item = vector[i];
        let rendered = render_at(&item.id, blocks, fuel);
        proof {
            assert(members.skip(i as int)[0] == members[i as int]);
            assert(members.skip(i as int).drop_first() =~= members.skip(i as int + 1));
        }
        r.append(rendered.as_str());
        i += 1;
    }
    proof {
        assert(members.skip(members.len() as int) =~= Seq::<BlockValue>::empty());
        assert(r@ =~= "<ul>"@ + spec_wrapper_items(blocks@, members, fuel as nat));
    }
    r.append("</ul>");
    proof {
        assert(r@ =~= spec_render_wrapper(blocks@, members, fuel as nat));
    }
    r
}

fn render_children_at(ids: &Vec<String>, blocks: &BlockTable, fuel: usize) -> (r: String)
    ensures
        r@ == spec_render_children(blocks@, ids@, fuel as nat),
    decreases fuel, 2int,
{
    let mut out = String::new();
    let mut pending: Vec<&BlockValue> = Vec::new();
    let mut i: usize = 0;
    proof {
        assert(values_of(pending@) =~= Seq::<BlockValue>::empty());
        assert(ids@.skip(0int) =~= ids@);
    }
    while i < ids.len()
        invariant
            0 <= i <= ids@.len(),
            spec_children_fold(blocks@, ids@, Seq::empty(), fuel as nat) == out@
                + spec_children_fold(
                blocks@,
                ids@.skip(i as int),
                values_of(pending@),
                fuel as nat,
            ),
        decreases ids@.len() - i,
    {
        let ghost remaining = ids@.skip(i as int);
        let ghost old_pending = values_of(pending@);
        proof {
            assert(remaining[0] == ids@[i as int]);
            assert(remaining.drop_first() =~= ids@.skip(i as int + 1));
        }
        let id = &ids[i];
        match blocks.get(id) {
            Some(record) => match record {
                BlockRecord::Resolved(v) => {
                    if needs_grouping(&v.block) {
                        if can_be_grouped(&v.block, &pending) {
                            pending.push(v);
                            proof {
                                assert(values_of(pending@) =~= old_pending.push(*v));
                            }
                        } else {
                            let flushed = render_wrapper_at(&pending, blocks, fuel);
                            out.append(flushed.as_str());
                            pending = Vec::new();
                            pending.push(v);
                            proof {
                                assert(values_of(pending@) =~= seq![*v]);
                            }
                        }
                    } else {
                        let flushed = render_wrapper_at(&pending, blocks, fuel);
                        out.append(flushed.as_str());
                        let rendered = render_at(id, blocks, fuel);
                        out.append(rendered.as_str());
                        pending = Vec::new();
                        proof {
                            assert(values_of(pending@) =~= Seq::<BlockValue>::empty());
                        }
                    }
                },
                BlockRecord::Other => {},
            },
            None => {},
        }
        i += 1;
    }
    proof {
        assert(ids@.skip(ids@.len() as int) =~= Seq::<String>::empty());
    }
    let flushed = render_wrapper_at(&pending, blocks, fuel);
    out.append(flushed.as_str());
    let mut r = "<div>".to_owned();
    r.append(out.as_str());
    r.append("</div>");
    proof {
        assert(r@ =~= spec_render_children(blocks@, ids@, fuel as nat));
    }
    r
}

/// The tree walker and sole full entry point: renders one identifier against
/// the table. It never fails: a missing or non-renderable identifier yields
/// empty markup, and descendants of a container block are rendered to a
/// recursion depth of one level per table entry — enough for every acyclic
/// table, and a terminating cut-off on a cyclic one.
pub fn render(id: &String, blocks: &BlockTable) -> (r: String)
    ensures
        r@ == spec_render(blocks@, id@, blocks.size()),
{
    render_at(id, blocks, blocks.len())
}

/// The grouping accumulator: renders an ordered sequence of sibling
/// identifiers into one combined fragment inside a generic container
/// element, coalescing runs of consecutive same-family list items into one
/// enclosing list container each. An empty sequence yields the empty
/// container.
pub fn render_children(ids: &Vec<String>, blocks: &BlockTable) -> (r: String)
    ensures
        r@ == spec_render_children(blocks@, ids@, blocks.size()),
        ids@.len() == 0 ==> r@ == "<div></div>"@,
{
    let r = render_children_at(ids, blocks, blocks.len());
    proof {
        if ids@.len() == 0 {
            reveal_strlit("<div>");
            reveal_strlit("</div>");
            reveal_strlit("<div></div>");
            assert(r@ =~= "<div></div>"@);
        }
    }
    r
}

/// The group wrapper: renders a completed group of same-kind list items as
/// one enclosing list container, each member rendered by the full tree
/// walker. An empty group yields empty markup.
pub fn render_wrapper(vector: &Vec<&BlockValue>, blocks: &BlockTable) -> (r: String)
    ensures
        r@ == spec_render_wrapper(blocks@, values_of(vector@), blocks.size()),
        vector@.len() == 0 ==> r@ == Seq::<char>::empty(),
{
    render_wrapper_at(vector, blocks, blocks.len())
}

} // verus!
