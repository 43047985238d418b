//! Leaf and container blocks: what each holds, how each is parsed from its
//! source text, and the HTML that each renders to.
use vstd::prelude::*;
use crate::inline::{inline_model, push_spans_html, spans_html, spans_of, spans_view, Span};
use crate::text::{
    after_first_token, after_first_token_exec, chars_of, decimal, first_token, first_token_exec,
    push_decimal, run_of, run_of_exec, starts_with, starts_with_exec, slice_of, string_of,
    strip_lead, strip_lead_exec, strip_trail, strip_trail_exec, trim, trim_exec,
};

verus! {

/// What a leaf block holds, as values.
pub enum LeafModel {
    Heading { level: nat, spans: Seq<Seq<char>> },
    FencedCode { lang: Seq<char>, code: Seq<char> },
    DisplayMath { body: Seq<char> },
    Paragraph { spans: Seq<Seq<char>> },
    ListItem { spans: Seq<Seq<char>> },
}

/// What a top-level block holds, as values.
pub enum BlockModel {
    Leaf(LeafModel),
    Container { name: Seq<char>, title: Seq<char>, leaves: Seq<LeafModel> },
}

// ---------------------------------------------------------------- parsing models

/// A heading line: its level is the number of leading `#`; its text loses the
/// leading and trailing `#` and the surrounding whitespace.
pub open spec fn heading_model(l: Seq<char>) -> LeafModel {
    LeafModel::Heading {
        level: run_of(l, 0, '#') as nat,
        spans: inline_model(trim(strip_trail(strip_lead(l, '#'), '#'))),
    }
}

/// A list-item line: its text follows the `- ` marker, trimmed.
pub open spec fn list_item_model(l: Seq<char>) -> LeafModel {
    let rest = if starts_with(l, seq!['-', ' ']) {
        l.subrange(2, l.len() as int)
    } else {
        seq![]
    };
    LeafModel::ListItem { spans: inline_model(trim(rest)) }
}

/// A paragraph line: its trimmed text.
pub open spec fn paragraph_model(l: Seq<char>) -> LeafModel {
    LeafModel::Paragraph { spans: inline_model(trim(l)) }
}

/// Index of the first `\r\n` in `s` at or after `i`; `s.len()` where there is none.
pub open spec fn crlf_from(s: Seq<char>, i: int) -> int
    decreases s.len() - i,
{
    if 0 <= i && i + 1 < s.len() {
        if s[i] == '\r' && s[i + 1] == '\n' {
            i
        } else {
            crlf_from(s, i + 1)
        }
    } else {
        s.len() as int
    }
}

/// The metadata line of an accumulated block: what stands before the first `\r\n`.
pub open spec fn meta_line(s: Seq<char>) -> Seq<char> {
    s.subrange(0, crlf_from(s, 0))
}

/// The body of an accumulated block: all that follows the first `\r\n`.
pub open spec fn body_after_meta(s: Seq<char>) -> Seq<char> {
    let k = crlf_from(s, 0);
    if k < s.len() {
        s.subrange(k + 2, s.len() as int)
    } else {
        seq![]
    }
}

pub open spec fn fenced_code_model(s: Seq<char>) -> LeafModel {
    LeafModel::FencedCode { lang: first_token(meta_line(s)), code: body_after_meta(s) }
}

pub open spec fn display_math_model(s: Seq<char>) -> LeafModel {
    LeafModel::DisplayMath { body: s }
}

/// A container from its metadata line: the first token is the name, and the
/// rest of the line after it, trimmed, is the title.
pub open spec fn pre_model(s: Seq<char>) -> BlockModel {
    let meta = meta_line(s);
    BlockModel::Container {
        name: first_token(meta),
        title: trim(after_first_token(meta)),
        leaves: seq![],
    }
}

// ---------------------------------------------------------------- rendering models

pub open spec fn leaf_html(l: LeafModel) -> Seq<char> {
    match l {
        LeafModel::Heading { level, spans } => {
            if spans.len() == 0 {
                seq![]
            } else {
                "<h"@ + decimal(level) + ">"@ + spans_html(spans) + "</h"@ + decimal(level) + ">"@
            }
        },
        LeafModel::FencedCode { lang, code } => {
            "<pre><code class=\"language-"@ + lang + "\">"@ + code + "</code></pre>"@
        },
        LeafModel::DisplayMath { body } => "<p>\\["@ + body + "\\]</p>"@,
        LeafModel::Paragraph { spans } => {
            if spans.len() == 0 {
                seq![]
            } else {
                "<p>"@ + spans_html(spans) + "</p>"@
            }
        },
        LeafModel::ListItem { spans } => {
            if spans.len() == 0 {
                seq![]
            } else {
                "<li>"@ + spans_html(spans) + "</li>"@
            }
        },
    }
}

/// A `<ul>` around the buffered list items.
pub open spec fn ul_html(items: Seq<char>) -> Seq<char> {
    "<ul>"@ + items + "</ul>"@
}

/// Folds a container's leaves: the pair is (buffered list-item HTML, HTML so far).
/// List items are buffered; any other leaf first flushes a non-empty buffer.
pub open spec fn pre_fold(leaves: Seq<LeafModel>) -> (Seq<char>, Seq<char>)
    decreases leaves.len(),
{
    if leaves.len() == 0 {
        (seq![], seq![])
    } else {
        let (ul, acc) = pre_fold(leaves.drop_last());
        let l = leaves.last();
        if l is ListItem {
            (ul + leaf_html(l), acc)
        } else if ul.len() == 0 {
            (ul, acc + leaf_html(l))
        } else {
            (seq![], acc + ul_html(ul) + leaf_html(l))
        }
    }
}

/// The inner HTML of a container: the fold, with a last flush of the buffer.
pub open spec fn pre_inner_html(leaves: Seq<LeafModel>) -> Seq<char> {
    let (ul, acc) = pre_fold(leaves);
    if ul.len() == 0 {
        acc
    } else {
        acc + ul_html(ul)
    }
}

pub open spec fn pre_html(name: Seq<char>, title: Seq<char>, leaves: Seq<LeafModel>) -> Seq<char> {
    "<container name=\""@ + name + "\" title=\""@ + title + "\">"@ + pre_inner_html(leaves)
        + "</container>"@
}

pub open spec fn block_html(b: BlockModel) -> Seq<char> {
    match b {
        BlockModel::Leaf(l) => leaf_html(l),
        BlockModel::Container { name, title, leaves } => pre_html(name, title, leaves),
    }
}

// ---------------------------------------------------------------- headings

#[derive(Debug, Clone)]
pub struct Heading {
    pub level: usize,
    pub spans: Vec<Span>,
}

impl View for Heading {
    type V = LeafModel;

    open spec fn view(&self) -> LeafModel {
        LeafModel::Heading { level: self.level as nat, spans: spans_view(self.spans@) }
    }
}

impl Heading {
    pub fn tohtml(&self) -> (r: String)
        ensures
            r@ == leaf_html(self@),
    {
        let mut html = String::new();
        if self.spans.len() > 0 {
            html.append("<h");
            push_decimal(&mut html, self.level);
            html.append(">");
            push_spans_html(&mut html, &self.spans);
            html.append("</h");
            push_decimal(&mut html, self.level);
            html.append(">");
        }
        proof {
            assert(html@ =~= leaf_html(self@));
        }
        html
    }
}

pub(crate) fn heading_of(l: &Vec<char>) -> (r: Heading)
    ensures
        r@ == heading_model(l@),
{
    let level = run_of_exec(l, 0, '#');
    let rest = strip_lead_exec(l, '#');
    let text = trim_exec(&strip_trail_exec(&rest, '#'));
    Heading { level, spans: spans_of(&text) }
}

pub fn parse_heading(input: &String) -> (r: Heading)
    ensures
        r@ == heading_model(input@),
{
    heading_of(&chars_of(input.as_str()))
}

// ---------------------------------------------------------------- fenced code

#[derive(Debug, Clone)]
pub struct FencedCode {
    pub lang: String,
    pub code: String,
}

impl View for FencedCode {
    type V = LeafModel;

    open spec fn view(&self) -> LeafModel {
        LeafModel::FencedCode { lang: self.lang@, code: self.code@ }
    }
}

impl FencedCode {
    pub fn tohtml(&self) -> (r: String)
        ensures
            r@ == leaf_html(self@),
    {
        let mut html = String::new();
        html.append("<pre><code class=\"language-");
        html.append(self.lang.as_str());
        html.append("\">");
        html.append(self.code.as_str());
        html.append("</code></pre>");
        proof {
            assert(html@ =~= leaf_html(self@));
        }
        html
    }
}

/// Index of the first `\r\n` in `s`, or `s.len()`.
fn first_crlf(s: &Vec<char>) -> (r: usize)
    ensures
        r == crlf_from(s@, 0),
        r <= s.len(),
        r < s.len() ==> r + 1 < s.len(),
{
    let mut k: usize = 0;
    while k < s.len() && k + 1 < s.len()
        invariant
            k <= s.len(),
            crlf_from(s@, 0) == crlf_from(s@, k as int),
        decreases s.len() - k,
    {
        if s[k] == '\r' && s[k + 1] == '\n' {
            return k;
        }
        k = k + 1;
    }
    s.len()
}

fn meta_line_exec(s: &Vec<char>) -> (r: Vec<char>)
    ensures
        r@ == meta_line(s@),
{
    let k = first_crlf(s);
    slice_of(s, 0, k)
}

pub(crate) fn fenced_code_of(s: &Vec<char>) -> (r: FencedCode)
    ensures
        r@ == fenced_code_model(s@),
{
    let k = first_crlf(s);
    let meta = slice_of(s, 0, k);
    let body = if k < s.len() {
        slice_of(s, k + 2, s.len())
    } else {
        Vec::new()
    };
    let lang = first_token_exec(&meta);
    let r = FencedCode { lang: string_of(&lang), code: string_of(&body) };
    proof {
        assert(r.code@ =~= body_after_meta(s@));
    }
    r
}

/// The text before the first `\r\n` is the metadata line, whose first token
/// names the language; all that follows it is the code.
pub fn parse_fenced_code(input: &String) -> (r: FencedCode)
    ensures
        r@ == fenced_code_model(input@),
{
    fenced_code_of(&chars_of(input.as_str()))
}

// ---------------------------------------------------------------- display math

#[derive(Debug, Clone)]
pub struct DisplayMath(pub String);

impl View for DisplayMath {
    type V = LeafModel;

    open spec fn view(&self) -> LeafModel {
        LeafModel::DisplayMath { body: self.0@ }
    }
}

impl DisplayMath {
    pub fn tohtml(&self) -> (r: String)
        ensures
            r@ == leaf_html(self@),
    {
        let mut html = String::new();
        html.append("<p>\\[");
        html.append(self.0.as_str());
        html.append("\\]</p>");
        proof {
            assert(html@ =~= leaf_html(self@));
        }
        html
    }
}

pub(crate) fn display_math_of(s: &Vec<char>) -> (r: DisplayMath)
    ensures
        r@ == display_math_model(s@),
{
    DisplayMath(string_of(s))
}

pub fn parse_display_math(input: &String) -> (r: DisplayMath)
    ensures
        r@ == display_math_model(input@),
{
    DisplayMath(input.clone())
}

// ---------------------------------------------------------------- list items

#[derive(Debug, Clone)]
pub struct ListItem(pub Vec<Span>);

impl View for ListItem {
    type V = LeafModel;

    open spec fn view(&self) -> LeafModel {
        LeafModel::ListItem { spans: spans_view(self.0@) }
    }
}

impl ListItem {
    pub fn tohtml(&self) -> (r: String)
        ensures
            r@ == leaf_html(self@),
    {
        let mut html = String::new();
        if self.0.len() > 0 {
            html.append("<li>");
            push_spans_html(&mut html, &self.0);
            html.append("</li>");
        }
        proof {
            assert(html@ =~= leaf_html(self@));
        }
        html
    }
}

pub(crate) fn list_item_of(l: &Vec<char>) -> (r: ListItem)
    ensures
        r@ == list_item_model(l@),
{
    let marker = vec!['-', ' '];
    let rest = if starts_with_exec(l, &marker) {
        slice_of(l, 2, l.len())
    } else {
        Vec::new()
    };
    proof {
        assert(marker@ =~= seq!['-', ' ']);
        assert(rest@ =~= (if starts_with(l@, seq!['-', ' ']) {
            l@.subrange(2, l@.len() as int)
        } else {
            seq![]
        }));
    }
    ListItem(spans_of(&trim_exec(&rest)))
}

pub fn parse_list_item(input: &String) -> (r: ListItem)
    ensures
        r@ == list_item_model(input@),
{
    list_item_of(&chars_of(input.as_str()))
}

// ---------------------------------------------------------------- paragraphs

#[derive(Debug, Clone)]
pub struct Paragraph(pub Vec<Span>);

impl View for Paragraph {
    type V = LeafModel;

    open spec fn view(&self) -> LeafModel {
        LeafModel::Paragraph { spans: spans_view(self.0@) }
    }
}

impl Paragraph {
    pub fn tohtml(&self) -> (r: String)
        ensures
            r@ == leaf_html(self@),
    {
        let mut html = String::new();
        if self.0.len() > 0 {
            html.append("<p>");
            push_spans_html(&mut html, &self.0);
            html.append("</p>");
        }
        proof {
            assert(html@ =~= leaf_html(self@));
        }
        html
    }
}

pub(crate) fn paragraph_of(l: &Vec<char>) -> (r: Paragraph)
    ensures
        r@ == paragraph_model(l@),
{
    Paragraph(spans_of(&trim_exec(l)))
}

pub fn parse_paragraph(input: &String) -> (r: Paragraph)
    ensures
        r@ == paragraph_model(input@),
{
    paragraph_of(&chars_of(input.as_str()))
}

// ---------------------------------------------------------------- leaf blocks

#[derive(Debug, Clone)]
pub enum LeafBlock {
    Heading(Heading),
    FencedCode(FencedCode),
    DisplayMath(DisplayMath),
    Paragraph(Paragraph),
    ListItem(ListItem),
}

impl View for LeafBlock {
    type V = LeafModel;

    open spec fn view(&self) -> LeafModel {
        match self {
            LeafBlock::Heading(l) => l@,
            LeafBlock::FencedCode(l) => l@,
            LeafBlock::DisplayMath(l) => l@,
            LeafBlock::Paragraph(l) => l@,
            LeafBlock::ListItem(l) => l@,
        }
    }
}

impl LeafBlock {
    pub fn tohtml(&self) -> (r: String)
        ensures
            r@ == leaf_html(self@),
    {
        match self {
            LeafBlock::Heading(leaf) => leaf.tohtml(),
            LeafBlock::FencedCode(leaf) => leaf.tohtml(),
            LeafBlock::DisplayMath(leaf) => leaf.tohtml(),
            LeafBlock::Paragraph(leaf) => leaf.tohtml(),
            LeafBlock::ListItem(leaf) => leaf.tohtml(),
        }
    }
}

pub open spec fn leaves_view(v: Seq<LeafBlock>) -> Seq<LeafModel> {
    v.map_values(|l: LeafBlock| l@)
}

// ---------------------------------------------------------------- named containers

/// A named container: a name, a title and the leaf blocks it holds.
#[derive(Debug, Clone)]
pub struct Pre {
    pub name: String,
    pub title: String,
    pub leafs: Vec<LeafBlock>,
}

impl View for Pre {
    type V = BlockModel;

    open spec fn view(&self) -> BlockModel {
        BlockModel::Container {
            name: self.name@,
            title: self.title@,
            leaves: leaves_view(self.leafs@),
        }
    }
}

impl Pre {
    /// Consecutive list items are wrapped in one `<ul>`.
    pub fn tohtml(&self) -> (r: String)
        ensures
            r@ == block_html(self@),
    {
        let mut ul = String::new();
        let mut acc = String::new();
        let mut k: usize = 0;
        while k < self.leafs.len()
            invariant
                k <= self.leafs.len(),
                (ul@, acc@) == pre_fold(leaves_view(self.leafs@.take(k as int))),
            decreases self.leafs.len() - k,
        {
            let leaf = &self.leafs[k];
            let h = leaf.tohtml();
            let is_item = match leaf {
                LeafBlock::ListItem(_) => true,
                _ => false,
            };
            if is_item {
                ul.append(h.as_str());
            } else if ul.as_str().is_empty() {
                acc.append(h.as_str());
            } else {
                acc.append("<ul>");
                acc.append(ul.as_str());
                acc.append("</ul>");
                acc.append(h.as_str());
                ul = String::new();
            }
            proof {
                let t = leaves_view(self.leafs@.take(k + 1));
                assert(t.drop_last() =~= leaves_view(self.leafs@.take(k as int)));
                assert(t.last() == leaf@);
                assert(ul@ =~= pre_fold(t).0);
                assert(acc@ =~= pre_fold(t).1);
            }
            k = k + 1;
        }
        if !ul.as_str().is_empty() {
            acc.append("<ul>");
            acc.append(ul.as_str());
            acc.append("</ul>");
        }
        let mut html = String::new();
        html.append("<container name=\"");
        html.append(self.name.as_str());
        html.append("\" title=\"");
        html.append(self.title.as_str());
        html.append("\">");
        html.append(acc.as_str());
        html.append("</container>");
        proof {
            assert(self.leafs@.take(k as int) =~= self.leafs@);
            assert(acc@ =~= pre_inner_html(leaves_view(self.leafs@)));
            assert(html@ =~= block_html(self@));
        }
        html
    }
}

/// A container from the metadata line of `input` (the text before the first
/// `\r\n`): its first token is the name, and the rest of it, trimmed, is the title.
pub fn parse_pre(input: &String) -> (r: Pre)
    ensures
        r@ == pre_model(input@),
{
    let s = chars_of(input.as_str());
    let meta = meta_line_exec(&s);
    let name = first_token_exec(&meta);
    let title = trim_exec(&after_first_token_exec(&meta));
    let r = Pre { name: string_of(&name), title: string_of(&title), leafs: Vec::new() };
    proof {
        assert(leaves_view(r.leafs@) =~= seq![]);
    }
    r
}

// ---------------------------------------------------------------- blocks

#[derive(Debug)]
pub enum ContainerBlock {
    Pre(Pre),
}

impl View for ContainerBlock {
    type V = BlockModel;

    open spec fn view(&self) -> BlockModel {
        match self {
            ContainerBlock::Pre(p) => p@,
        }
    }
}

impl ContainerBlock {
    pub fn tohtml(&self) -> (r: String)
        ensures
            r@ == block_html(self@),
    {
        match self {
            ContainerBlock::Pre(p) => p.tohtml(),
        }
    }
}

#[derive(Debug)]
pub enum Block {
    LeafBlock(LeafBlock),
    ContainerBlock(ContainerBlock),
}

impl View for Block {
    type V = BlockModel;

    open spec fn view(&self) -> BlockModel {
        match self {
            Block::LeafBlock(l) => BlockModel::Leaf(l@),
            Block::ContainerBlock(c) => c@,
        }
    }
}

impl Block {
    pub fn tohtml(&self) -> (r: String)
        ensures
            r@ == block_html(self@),
    {
        match self {
            Block::ContainerBlock(c) => c.tohtml(),
            Block::LeafBlock(leaf) => leaf.tohtml(),
        }
    }
}

} // verus!
