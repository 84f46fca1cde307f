//! The data model: blocks, their structural kinds, and formatted text runs.

use vstd::prelude::*;

verus! {

/// A context-free text decoration. Only `Bold` and `Italic` map to markup;
/// the remaining kinds are carried through without any wrapping.
pub enum StyleKind {
    Bold,
    Italic,
    Strikethrough,
    Code,
}

/// One formatting instruction attached to a text run. The `WithContext`
/// family (links, mentions, ...) carries its context string but is not
/// expanded by this renderer: it contributes no wrapping.
pub enum FormatInstruction {
    NoContext(StyleKind),
    WithContext(String),
}

/// A contiguous piece of text plus optional nested formatting instructions.
/// Absent formatting means the text is emitted verbatim (escaped only).
pub struct FormattedText {
    pub text: String,
    pub formatting: Option<Vec<FormatInstruction>>,
}

/// Properties of a paragraph-like block: its title, an ordered sequence of
/// formatted text runs.
pub struct TextProperties {
    pub title: Vec<FormattedText>,
}

/// Properties of a page block: its title, an ordered sequence of formatted
/// text runs.
pub struct PageProperties {
    pub title: Vec<FormattedText>,
}

/// The structural kind of a block. Kinds without a dedicated renderer
/// (everything from `NumberedList` down) fall back to a visible placeholder.
#[allow(inconsistent_fields)]
pub enum BlockKind {
    Page { properties: PageProperties },
    Text { properties: Option<TextProperties> },
    BulletedList { properties: Option<TextProperties> },
    NumberedList,
    Divider,
    Toggle { properties: Option<TextProperties> },
}

/// A renderable block: its identifier, its structural kind, and an optional
/// ordered sequence of child identifiers. `content` is `None` for leaf
/// blocks; its order is the document's visual order.
pub struct BlockValue {
    pub id: String,
    pub block: BlockKind,
    pub content: Option<Vec<String>>,
}

/// One record of the block table. Only the `Resolved` variant carries
/// renderable content; `Other` stands for records (collections, metadata)
/// that are referenced by identifier but render as nothing.
pub enum BlockRecord {
    Resolved(BlockValue),
    Other,
}

/// Whether a block kind takes part in sibling grouping: true exactly for
/// the two list-item kinds.
pub open spec fn is_list_kind(k: BlockKind) -> bool {
    k is BulletedList || k is NumberedList
}

/// Whether two block kinds belong to the same list family: bulleted groups
/// only with bulleted, numbered only with numbered.
pub open spec fn same_list_family(a: BlockKind, b: BlockKind) -> bool {
    (a is BulletedList && b is BulletedList) || (a is NumberedList && b is NumberedList)
}

} // verus!
