use block_renderer::blocks::{
    BlockKind, BlockRecord, BlockValue, FormatInstruction, FormattedText, PageProperties,
    StyleKind, TextProperties,
};
use block_renderer::renderer::{
    can_be_grouped, needs_grouping, render, render_block, render_children, render_text,
    render_wrapper,
};
use block_renderer::table::BlockTable;

fn raw_run(text: &str) -> FormattedText {
    FormattedText { text: text.to_string(), formatting: None }
}

fn formatted_run(text: &str, formatting: Vec<FormatInstruction>) -> FormattedText {
    FormattedText { text: text.to_string(), formatting: Some(formatting) }
}

fn text_props(title: &str) -> Option<TextProperties> {
    Some(TextProperties { title: vec![raw_run(title)] })
}

fn text_value(id: &str, title: &str, content: Option<Vec<String>>) -> BlockValue {
    BlockValue {
        id: id.to_string(),
        block: BlockKind::Text { properties: text_props(title) },
        content,
    }
}

fn bulleted_value(id: &str, title: &str) -> BlockValue {
    BlockValue {
        id: id.to_string(),
        block: BlockKind::BulletedList { properties: text_props(title) },
        content: None,
    }
}

fn numbered_value(id: &str) -> BlockValue {
    BlockValue { id: id.to_string(), block: BlockKind::NumberedList, content: None }
}

fn table_of(values: Vec<BlockValue>) -> BlockTable {
    let mut table = BlockTable::new();
    for value in values {
        table.insert(value.id.clone(), BlockRecord::Resolved(value));
    }
    table
}

fn ids_of(ids: &[&str]) -> Vec<String> {
    ids.iter().map(|s| s.to_string()).collect()
}

#[test]
fn needs_grouping_only_for_list_items() {
    assert!(needs_grouping(&BlockKind::BulletedList { properties: None }));
    assert!(needs_grouping(&BlockKind::NumberedList));
    assert!(!needs_grouping(&BlockKind::Text { properties: None }));
    assert!(!needs_grouping(&BlockKind::Divider));
}

#[test]
fn can_be_grouped_requires_same_family() {
    let b = bulleted_value("b", "x");
    let n = numbered_value("n");
    let empty: Vec<&BlockValue> = vec![];
    assert!(!can_be_grouped(&BlockKind::BulletedList { properties: None }, &empty));
    let bulleted_group = vec![&b];
    assert!(can_be_grouped(&BlockKind::BulletedList { properties: None }, &bulleted_group));
    assert!(!can_be_grouped(&BlockKind::NumberedList, &bulleted_group));
    let numbered_group = vec![&n];
    assert!(can_be_grouped(&BlockKind::NumberedList, &numbered_group));
    assert!(!can_be_grouped(&BlockKind::BulletedList { properties: None }, &numbered_group));
}

#[test]
fn raw_text_is_emitted_verbatim() {
    let out = render_text(&vec![raw_run("hello"), raw_run(" world")]);
    assert_eq!(out, "hello world");
}

#[test]
fn raw_text_is_escaped() {
    let out = render_text(&vec![raw_run("a<b & \"c\" > d")]);
    assert_eq!(out, "a&lt;b &amp; &quot;c&quot; &gt; d");
}

#[test]
fn formatting_nesting_first_instruction_innermost() {
    let out = render_text(&vec![formatted_run(
        "x",
        vec![
            FormatInstruction::NoContext(StyleKind::Bold),
            FormatInstruction::NoContext(StyleKind::Italic),
        ],
    )]);
    assert_eq!(out, "<span data-token-index=\"0\"><em><b>x</b></em></span>");
}

#[test]
fn unmapped_instructions_are_no_ops() {
    let out = render_text(&vec![formatted_run(
        "x",
        vec![
            FormatInstruction::NoContext(StyleKind::Strikethrough),
            FormatInstruction::WithContext("https://example.test".to_string()),
        ],
    )]);
    assert_eq!(out, "<span data-token-index=\"0\">x</span>");
}

#[test]
fn formatted_text_is_escaped_inside_the_span() {
    let out = render_text(&vec![formatted_run(
        "a&b",
        vec![FormatInstruction::NoContext(StyleKind::Bold)],
    )]);
    assert_eq!(out, "<span data-token-index=\"0\"><b>a&amp;b</b></span>");
}

#[test]
fn span_indices_follow_run_positions() {
    let bold = || vec![FormatInstruction::NoContext(StyleKind::Bold)];
    let mut runs = Vec::new();
    for _ in 0..11 {
        runs.push(formatted_run("x", bold()));
    }
    let out = render_text(&runs);
    assert!(out.starts_with("<span data-token-index=\"0\"><b>x</b></span>"));
    assert!(out.ends_with("<span data-token-index=\"10\"><b>x</b></span>"));
}

#[test]
fn page_block_renders_heading() {
    let out = render_block(&BlockKind::Page {
        properties: PageProperties { title: vec![raw_run("My page")] },
    });
    assert_eq!(out, "<h1 class=\"notion-page-block\">My page</h1>");
}

#[test]
fn text_block_without_properties_renders_empty_paragraph() {
    let out = render_block(&BlockKind::Text { properties: None });
    assert_eq!(out, "<p class=\"notion-text-block\"></p>");
}

#[test]
fn bulleted_block_renders_list_item() {
    let out = render_block(&BlockKind::BulletedList { properties: text_props("point") });
    assert_eq!(out, "<li class=\"notion-bulleted_list-block\">point</li>");
}

#[test]
fn unrecognized_kind_renders_placeholder() {
    assert_eq!(render_block(&BlockKind::Divider), "<h1>Could not render!</h1>");
    assert_eq!(render_block(&BlockKind::NumberedList), "<h1>Could not render!</h1>");
    assert_eq!(
        render_block(&BlockKind::Toggle { properties: text_props("t") }),
        "<h1>Could not render!</h1>"
    );
}

#[test]
fn placeholder_block_still_processes_its_children() {
    let table = table_of(vec![
        BlockValue {
            id: "d".to_string(),
            block: BlockKind::Divider,
            content: Some(ids_of(&["c"])),
        },
        text_value("c", "inside", None),
    ]);
    let out = render(&"d".to_string(), &table);
    assert_eq!(
        out,
        "<h1>Could not render!</h1><div><p class=\"notion-text-block\">inside</p></div>"
    );
}

#[test]
fn missing_identifier_renders_empty() {
    let table = table_of(vec![text_value("a", "x", None)]);
    assert_eq!(render(&"nope".to_string(), &table), "");
}

#[test]
fn non_renderable_record_renders_empty() {
    let mut table = BlockTable::new();
    table.insert("meta".to_string(), BlockRecord::Other);
    assert_eq!(render(&"meta".to_string(), &table), "");
}

#[test]
fn leaf_block_renders_skeleton_alone() {
    let table = table_of(vec![text_value("a", "leaf", None)]);
    assert_eq!(render(&"a".to_string(), &table), "<p class=\"notion-text-block\">leaf</p>");
}

#[test]
fn empty_children_render_empty_container() {
    let table = table_of(vec![text_value("a", "t", Some(vec![]))]);
    assert_eq!(
        render(&"a".to_string(), &table),
        "<p class=\"notion-text-block\">t</p><div></div>"
    );
}

#[test]
fn children_keep_document_order() {
    let table = table_of(vec![
        text_value("c1", "one", None),
        text_value("c2", "two", None),
        text_value("c3", "three", None),
    ]);
    let out = render_children(&ids_of(&["c1", "c2", "c3"]), &table);
    assert_eq!(
        out,
        "<div><p class=\"notion-text-block\">one</p><p class=\"notion-text-block\">two</p><p class=\"notion-text-block\">three</p></div>"
    );
}

#[test]
fn uniform_bulleted_run_renders_one_container() {
    let table = table_of(vec![
        bulleted_value("b1", "first"),
        bulleted_value("b2", "second"),
        bulleted_value("b3", "third"),
    ]);
    let out = render_children(&ids_of(&["b1", "b2", "b3"]), &table);
    assert_eq!(
        out,
        "<div><ul><li class=\"notion-bulleted_list-block\">first</li><li class=\"notion-bulleted_list-block\">second</li><li class=\"notion-bulleted_list-block\">third</li></ul></div>"
    );
}

#[test]
fn kind_change_renders_two_sibling_containers() {
    let table = table_of(vec![
        bulleted_value("b1", "one"),
        bulleted_value("b2", "two"),
        numbered_value("n1"),
        numbered_value("n2"),
    ]);
    let out = render_children(&ids_of(&["b1", "b2", "n1", "n2"]), &table);
    assert_eq!(
        out,
        "<div><ul><li class=\"notion-bulleted_list-block\">one</li><li class=\"notion-bulleted_list-block\">two</li></ul><ul><h1>Could not render!</h1><h1>Could not render!</h1></ul></div>"
    );
}

#[test]
fn non_list_sibling_breaks_the_group() {
    let table = table_of(vec![
        bulleted_value("b1", "one"),
        text_value("t", "between", None),
        bulleted_value("b2", "two"),
    ]);
    let out = render_children(&ids_of(&["b1", "t", "b2"]), &table);
    assert_eq!(
        out,
        "<div><ul><li class=\"notion-bulleted_list-block\">one</li></ul><p class=\"notion-text-block\">between</p><ul><li class=\"notion-bulleted_list-block\">two</li></ul></div>"
    );
}

#[test]
fn missing_reference_renders_as_if_removed() {
    let table = table_of(vec![bulleted_value("b1", "one"), bulleted_value("b2", "two")]);
    let with_missing = render_children(&ids_of(&["b1", "ghost", "b2"]), &table);
    let without = render_children(&ids_of(&["b1", "b2"]), &table);
    assert_eq!(with_missing, without);
    assert_eq!(
        with_missing,
        "<div><ul><li class=\"notion-bulleted_list-block\">one</li><li class=\"notion-bulleted_list-block\">two</li></ul></div>"
    );
}

#[test]
fn empty_children_sequence_renders_empty_container() {
    let table = BlockTable::new();
    assert_eq!(render_children(&vec![], &table), "<div></div>");
}

#[test]
fn empty_group_renders_empty_markup() {
    let table = BlockTable::new();
    let empty: Vec<&BlockValue> = vec![];
    assert_eq!(render_wrapper(&empty, &table), "");
}

#[test]
fn wrapper_renders_members_through_the_tree_walker() {
    let item = BlockValue {
        id: "b1".to_string(),
        block: BlockKind::BulletedList { properties: text_props("outer") },
        content: Some(ids_of(&["c"])),
    };
    let table = table_of(vec![
        BlockValue {
            id: "b1".to_string(),
            block: BlockKind::BulletedList { properties: text_props("outer") },
            content: Some(ids_of(&["c"])),
        },
        text_value("c", "nested", None),
    ]);
    let group = vec![&item];
    let out = render_wrapper(&group, &table);
    assert_eq!(
        out,
        "<ul><li class=\"notion-bulleted_list-block\">outer</li><div><p class=\"notion-text-block\">nested</p></div></ul>"
    );
}

#[test]
fn page_with_children_renders_heading_then_container() {
    let table = table_of(vec![
        BlockValue {
            id: "page".to_string(),
            block: BlockKind::Page { properties: PageProperties { title: vec![raw_run("Top")] } },
            content: Some(ids_of(&["a", "b1"])),
        },
        text_value("a", "para", None),
        bulleted_value("b1", "item"),
    ]);
    let out = render(&"page".to_string(), &table);
    assert_eq!(
        out,
        "<h1 class=\"notion-page-block\">Top</h1><div><p class=\"notion-text-block\">para</p><ul><li class=\"notion-bulleted_list-block\">item</li></ul></div>"
    );
}

#[test]
fn cyclic_table_still_terminates() {
    let table = table_of(vec![text_value("a", "loop", Some(ids_of(&["a"])))]);
    let out = render(&"a".to_string(), &table);
    assert_eq!(
        out,
        "<p class=\"notion-text-block\">loop</p><div><p class=\"notion-text-block\">loop</p></div>"
    );
}

#[test]
fn insert_replaces_earlier_binding() {
    let mut table = BlockTable::new();
    table.insert("a".to_string(), BlockRecord::Resolved(text_value("a", "old", None)));
    table.insert("a".to_string(), BlockRecord::Resolved(text_value("a", "new", None)));
    assert_eq!(table.len(), 1);
    assert_eq!(render(&"a".to_string(), &table), "<p class=\"notion-text-block\">new</p>");
}
