use md_blocks::block::{
    parse_display_math, parse_fenced_code, parse_heading, parse_list_item, parse_paragraph,
    parse_pre, Block, ContainerBlock, LeafBlock, ListItem, Paragraph, Heading,
};
use md_blocks::doc::{parse_doc, parse_doc_with, render, DocParser};
use md_blocks::inline::parse_inline;

fn count_code(blocks: &[Block]) -> usize {
    blocks
        .iter()
        .filter(|b| matches!(b, Block::LeafBlock(LeafBlock::FencedCode(_))))
        .count()
}

#[test]
fn test_heading() {
    let input = String::from("# hello $math$ `1+1`");

    let head = parse_heading(&input);
    println!("heading: {:?}", head.tohtml());
    assert_eq!(head.level, 1);
    assert_eq!(head.tohtml(), "<h1>hello $math$ `1+1`</h1>");
}

#[test]
fn test_fenced_code() {
    let input = String::from("python\r\nfor x in range(0, 20, 2):\nprint(x, end=\" \")");

    let code = parse_fenced_code(&input);
    println!("{:?}", code.tohtml());
    assert_eq!(code.lang, "python");
    assert_eq!(code.code, "for x in range(0, 20, 2):\nprint(x, end=\" \")");
    assert_eq!(
        code.tohtml(),
        "<pre><code class=\"language-python\">for x in range(0, 20, 2):\nprint(x, end=\" \")</code></pre>"
    );
}

#[test]
fn heading_level_one_renders_h1() {
    let h = parse_heading(&String::from("# a"));
    assert_eq!(h.level, 1);
    assert_eq!(h.tohtml(), "<h1>a</h1>");
    let blocks = parse_doc(&String::from("# a"));
    assert_eq!(blocks.len(), 1);
    assert_eq!(render(&blocks), "<h1>a</h1>");
}

#[test]
fn heading_trailing_hashes_are_trimmed() {
    let h = parse_heading(&String::from("## mid ##"));
    assert_eq!(h.level, 2);
    assert_eq!(h.spans.len(), 1);
    assert_eq!(h.spans[0].text, "mid");
    assert_eq!(h.tohtml(), "<h2>mid</h2>");
}

#[test]
fn heading_level_with_two_digits() {
    let h = parse_heading(&String::from("############ deep"));
    assert_eq!(h.level, 12);
    assert_eq!(h.tohtml(), "<h12>deep</h12>");
}

#[test]
fn fenced_block_yields_one_code_block() {
    let blocks = parse_doc(&String::from("```python\nprint(1)\n```"));
    assert_eq!(blocks.len(), 1);
    match &blocks[0] {
        Block::LeafBlock(LeafBlock::FencedCode(c)) => {
            assert_eq!(c.lang, "python");
            assert_eq!(c.code, "print(1)\n");
        }
        other => panic!("unexpected block {:?}", other),
    }
    assert_eq!(
        render(&blocks),
        "<pre><code class=\"language-python\">print(1)\n</code></pre>"
    );
}

#[test]
fn empty_leaves_render_empty() {
    let h = Heading { level: 1, spans: vec![] };
    let p = Paragraph(vec![]);
    let l = ListItem(vec![]);
    assert_eq!(h.tohtml(), "");
    assert_eq!(p.tohtml(), "");
    assert_eq!(l.tohtml(), "");
    assert_eq!(h.tohtml(), h.tohtml());
    assert_eq!(parse_paragraph(&String::from("   ")).tohtml(), "");
}

#[test]
fn container_wraps_consecutive_list_items_once() {
    let text = String::from("%% box Title here\nintro\n- one\n- two\n%%");
    let blocks = parse_doc_with(&text, true);
    assert_eq!(blocks.len(), 1);
    assert_eq!(
        render(&blocks),
        "<container name=\"box\" title=\"Title here\"><p>intro</p><ul><li>one</li><li>two</li></ul></container>"
    );
}

#[test]
fn container_list_items_go_to_top_level_by_default() {
    let text = String::from("%% box Title here\nintro\n- one\n- two\n%%");
    let blocks = parse_doc(&text);
    assert_eq!(blocks.len(), 3);
    assert!(matches!(blocks[0], Block::LeafBlock(LeafBlock::ListItem(_))));
    assert!(matches!(blocks[1], Block::LeafBlock(LeafBlock::ListItem(_))));
    assert_eq!(
        render(&blocks),
        "<li>one</li><li>two</li><container name=\"box\" title=\"Title here\"><p>intro</p></container>"
    );
}

#[test]
fn container_flushes_list_before_other_leaf() {
    let text = String::from("%% note\n- a\n- b\nafter\n- c\n%%");
    let blocks = parse_doc_with(&text, true);
    assert_eq!(
        render(&blocks),
        "<container name=\"note\" title=\"\"><ul><li>a</li><li>b</li></ul><p>after</p><ul><li>c</li></ul></container>"
    );
}

#[test]
fn container_holds_fenced_code_and_math() {
    let text = String::from("%% box T\n```rust\nlet x = 1;\n```\n$$\nx^2\n$$\n%%");
    let blocks = parse_doc(&text);
    assert_eq!(blocks.len(), 1);
    match &blocks[0] {
        Block::ContainerBlock(ContainerBlock::Pre(p)) => {
            assert_eq!(p.name, "box");
            assert_eq!(p.title, "T");
            assert_eq!(p.leafs.len(), 2);
        }
        other => panic!("unexpected block {:?}", other),
    }
    assert_eq!(
        render(&blocks),
        "<container name=\"box\" title=\"T\"><pre><code class=\"language-rust\">let x = 1;\n</code></pre><p>\\[x^2\n\\]</p></container>"
    );
}

#[test]
fn unterminated_fence_yields_no_code() {
    let blocks = parse_doc(&String::from("before\n```js\nlet a;\n# not a heading\nplain"));
    assert_eq!(count_code(&blocks), 0);
    assert_eq!(blocks.len(), 1);
    assert_eq!(render(&blocks), "<p>before</p>");
}

#[test]
fn display_math_keeps_body_verbatim() {
    let blocks = parse_doc(&String::from("$$\na + *b*\n$$"));
    assert_eq!(blocks.len(), 1);
    assert_eq!(render(&blocks), "<p>\\[a + *b*\n\\]</p>");
    assert_eq!(parse_display_math(&String::from("x")).tohtml(), "<p>\\[x\\]</p>");
}

#[test]
fn table_rows_produce_no_block() {
    let blocks = parse_doc(&String::from("| a | b |\ntext"));
    assert_eq!(blocks.len(), 1);
    assert_eq!(render(&blocks), "<p>text</p>");
}

#[test]
fn deeper_headings_are_paragraphs() {
    let blocks = parse_doc(&String::from("#### four"));
    assert_eq!(render(&blocks), "<p>#### four</p>");
}

#[test]
fn crlf_lines_are_split() {
    let blocks = parse_doc(&String::from("# t\r\nbody\r\n"));
    assert_eq!(blocks.len(), 2);
    assert_eq!(render(&blocks), "<h1>t</h1><p>body</p>");
}

#[test]
fn empty_document_has_no_blocks() {
    let blocks = parse_doc(&String::new());
    assert_eq!(blocks.len(), 0);
    assert_eq!(render(&blocks), "");
}

#[test]
fn same_text_renders_the_same() {
    let text = String::from("# a\n- b\n```c\nd\n```\n%% n t\ne\n%%");
    assert_eq!(render(&parse_doc(&text)), render(&parse_doc(&text.clone())));
}

#[test]
fn list_item_and_paragraph_parsers() {
    assert_eq!(parse_list_item(&String::from("- item ")).tohtml(), "<li>item</li>");
    assert_eq!(parse_list_item(&String::from("item")).tohtml(), "");
    assert_eq!(parse_paragraph(&String::from("  text ")).tohtml(), "<p>text</p>");
}

#[test]
fn pre_metadata_gives_name_and_title() {
    let p = parse_pre(&String::from("box Title here\r\nrest"));
    assert_eq!(p.name, "box");
    assert_eq!(p.title, "Title here");
    assert_eq!(p.leafs.len(), 0);
    assert_eq!(p.tohtml(), "<container name=\"box\" title=\"Title here\"></container>");
}

#[test]
fn inline_text_is_one_span() {
    let spans = parse_inline(&String::from("x y"));
    assert_eq!(spans.len(), 1);
    assert_eq!(spans[0].tohtml(), "x y");
    assert_eq!(parse_inline(&String::new()).len(), 0);
}

#[test]
fn parser_fed_line_by_line() {
    let mut p = DocParser::new(false);
    p.feed_line("# t");
    p.feed_line("```");
    p.feed_line("x");
    p.feed_line("```");
    let blocks = p.into_blocks();
    assert_eq!(blocks.len(), 2);
    assert_eq!(render(&blocks), "<h1>t</h1><pre><code class=\"language-\">x\n</code></pre>");
}

#[test]
fn unclosed_fence_inside_container_yields_no_code() {
    let blocks = parse_doc(&String::from("%% box T\nintro\n```py\nx = 1\n%%\n# h"));
    assert_eq!(count_code(&blocks), 0);
    assert_eq!(blocks.len(), 0);
}

#[test]
fn unclosed_fence_drops_the_rest() {
    let with_fence = parse_doc(&String::from("# t\npara\n```\nbody\n%% x\n| row\n## sub"));
    let prefix = parse_doc(&String::from("# t\npara"));
    assert_eq!(render(&with_fence), render(&prefix));
    assert_eq!(render(&with_fence), "<h1>t</h1><p>para</p>");
}
