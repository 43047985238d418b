//! The block-level parser: a state machine fed one line at a time, and the
//! renderer of a whole document.
use vstd::prelude::*;
use crate::block::{
    block_html, display_math_model, display_math_of, fenced_code_model, fenced_code_of,
    heading_model, heading_of, leaves_view, list_item_model, list_item_of, paragraph_model,
    leaf_html, paragraph_of, Block, BlockModel, ContainerBlock, LeafBlock, LeafModel, Pre,
};
use crate::text::{
    after_first_token, after_first_token_exec, chars_of, first_token, first_token_exec,
    lines_of, lines_scan, push_all, slice_of, starts_with, starts_with_exec, string_of,
    strip_cr, strip_lead, strip_lead_exec, trim, trim_exec,
};

verus! {

/// The multi-line construct that is open.
#[derive(Debug, Clone, Copy, PartialEq, Eq, Structural)]
pub enum Marker {
    Fence,
    Math,
    Container,
}

/// The parser's state, as values.
pub struct DocState {
    /// Blocks emitted so far.
    pub blocks: Seq<BlockModel>,
    /// Open constructs, innermost last.
    pub stack: Seq<Marker>,
    /// Text gathered for the open fenced code or display math.
    pub multi: Seq<char>,
    /// Whether a named container is open.
    pub in_container: bool,
    /// Name and title of the last container opened.
    pub name: Seq<char>,
    pub title: Seq<char>,
    /// Leaves gathered for the open container.
    pub leaves: Seq<LeafModel>,
    /// Whether `- ` lines inside an open container go into it, rather than to
    /// the top level.
    pub lists_in_container: bool,
}

pub open spec fn initial_state(lists_in_container: bool) -> DocState {
    DocState {
        blocks: seq![],
        stack: seq![],
        multi: seq![],
        in_container: false,
        name: seq![],
        title: seq![],
        leaves: seq![],
        lists_in_container,
    }
}

pub open spec fn top(st: DocState) -> Option<Marker> {
    if st.stack.len() == 0 {
        None
    } else {
        Some(st.stack.last())
    }
}

pub open spec fn is_heading_line(l: Seq<char>) -> bool {
    starts_with(l, seq!['#', ' ']) || starts_with(l, seq!['#', '#', ' ']) || starts_with(
        l,
        seq!['#', '#', '#', ' '],
    )
}

pub open spec fn is_list_line(l: Seq<char>) -> bool {
    starts_with(l, seq!['-', ' '])
}

pub open spec fn is_table_line(l: Seq<char>) -> bool {
    starts_with(l, seq!['|'])
}

pub open spec fn is_fence_line(l: Seq<char>) -> bool {
    starts_with(l, seq!['`', '`', '`'])
}

pub open spec fn is_math_line(l: Seq<char>) -> bool {
    starts_with(l, seq!['$', '$'])
}

pub open spec fn is_container_line(l: Seq<char>) -> bool {
    starts_with(l, seq!['%', '%'])
}

/// A finished leaf goes into the open container, or else to the top level.
pub open spec fn route(st: DocState, l: LeafModel) -> DocState {
    if st.in_container {
        DocState { leaves: st.leaves.push(l), ..st }
    } else {
        DocState { blocks: st.blocks.push(BlockModel::Leaf(l)), ..st }
    }
}

/// The state after one more line. The line kinds are tried in this order:
/// heading, list item, table row, fence, display math, container, other.
pub open spec fn step(st: DocState, l: Seq<char>) -> DocState {
    if is_heading_line(l) && st.stack.len() == 0 {
        DocState { blocks: st.blocks.push(BlockModel::Leaf(heading_model(l))), ..st }
    } else if is_list_line(l) {
        if st.lists_in_container && top(st) == Some(Marker::Container) {
            DocState { leaves: st.leaves.push(list_item_model(l)), ..st }
        } else {
            DocState { blocks: st.blocks.push(BlockModel::Leaf(list_item_model(l))), ..st }
        }
    } else if is_table_line(l) {
        st
    } else if is_fence_line(l) {
        if top(st) == Some(Marker::Fence) {
            let r = route(st, fenced_code_model(st.multi));
            DocState { stack: st.stack.drop_last(), multi: seq![], ..r }
        } else {
            DocState {
                stack: st.stack.push(Marker::Fence),
                multi: st.multi + seq![' '] + strip_lead(l, '`') + seq!['\r', '\n'],
                ..st
            }
        }
    } else if is_math_line(l) {
        if top(st) == Some(Marker::Math) {
            let r = route(st, display_math_model(st.multi));
            DocState { stack: st.stack.drop_last(), multi: seq![], ..r }
        } else {
            DocState { stack: st.stack.push(Marker::Math), ..st }
        }
    } else if is_container_line(l) {
        if st.stack.len() == 0 {
            let rest = strip_lead(l, '%');
            DocState {
                stack: st.stack.push(Marker::Container),
                in_container: true,
                name: first_token(rest),
                title: trim(after_first_token(rest)),
                ..st
            }
        } else if top(st) == Some(Marker::Container) {
            DocState {
                blocks: st.blocks.push(
                    BlockModel::Container { name: st.name, title: st.title, leaves: st.leaves },
                ),
                stack: st.stack.drop_last(),
                in_container: false,
                leaves: seq![],
                ..st
            }
        } else {
            st
        }
    } else {
        if top(st) == Some(Marker::Container) {
            DocState { leaves: st.leaves.push(paragraph_model(l)), ..st }
        } else if st.stack.len() == 0 {
            DocState { blocks: st.blocks.push(BlockModel::Leaf(paragraph_model(l))), ..st }
        } else {
            DocState { multi: st.multi + l + seq!['\n'], ..st }
        }
    }
}

/// The state after feeding `lines` in order.
pub open spec fn run(st: DocState, lines: Seq<Seq<char>>) -> DocState
    decreases lines.len(),
{
    if lines.len() == 0 {
        st
    } else {
        run(step(st, lines[0]), lines.subrange(1, lines.len() as int))
    }
}

/// The blocks of a document.
pub open spec fn doc_model(text: Seq<char>, lists_in_container: bool) -> Seq<BlockModel> {
    run(initial_state(lists_in_container), lines_of(text)).blocks
}

/// The HTML of a block sequence: each block's HTML, in order.
pub open spec fn doc_html(blocks: Seq<BlockModel>) -> Seq<char>
    decreases blocks.len(),
{
    if blocks.len() == 0 {
        seq![]
    } else {
        doc_html(blocks.drop_last()) + block_html(blocks.last())
    }
}

pub open spec fn blocks_view(v: Seq<Block>) -> Seq<BlockModel> {
    v.map_values(|b: Block| b@)
}

/// A parser fed one line at a time.
pub struct DocParser {
    pub blocks: Vec<Block>,
    pub stack: Vec<Marker>,
    pub multi_line: Vec<char>,
    pub in_container: bool,
    pub pre: Pre,
    pub lists_in_container: bool,
}

impl View for DocParser {
    type V = DocState;

    open spec fn view(&self) -> DocState {
        DocState {
            blocks: blocks_view(self.blocks@),
            stack: self.stack@,
            multi: self.multi_line@,
            in_container: self.in_container,
            name: self.pre.name@,
            title: self.pre.title@,
            leaves: leaves_view(self.pre.leafs@),
            lists_in_container: self.lists_in_container,
        }
    }
}

fn lit2(a: char, b: char) -> (r: Vec<char>)
    ensures
        r@ == seq![a, b],
{
    let r = vec![a, b];
    proof {
        assert(r@ =~= seq![a, b]);
    }
    r
}

fn lit3(a: char, b: char, c: char) -> (r: Vec<char>)
    ensures
        r@ == seq![a, b, c],
{
    let r = vec![a, b, c];
    proof {
        assert(r@ =~= seq![a, b, c]);
    }
    r
}

fn lit4(a: char, b: char, c: char, d: char) -> (r: Vec<char>)
    ensures
        r@ == seq![a, b, c, d],
{
    let r = vec![a, b, c, d];
    proof {
        assert(r@ =~= seq![a, b, c, d]);
    }
    r
}

fn starts_with_char(l: &Vec<char>, c: char) -> (r: bool)
    ensures
        r == starts_with(l@, seq![c]),
{
    let p = vec![c];
    proof {
        assert(p@ =~= seq![c]);
    }
    starts_with_exec(l, &p)
}

impl DocParser {
    pub fn new(lists_in_container: bool) -> (r: DocParser)
        ensures
            r@ == initial_state(lists_in_container),
    {
        let r = DocParser {
            blocks: Vec::new(),
            stack: Vec::new(),
            multi_line: Vec::new(),
            in_container: false,
            pre: Pre { name: String::new(), title: String::new(), leafs: Vec::new() },
            lists_in_container,
        };
        proof {
            assert(r@.blocks =~= seq![]);
            assert(r@.leaves =~= seq![]);
            assert(r@.stack =~= seq![]);
            assert(r@.multi =~= seq![]);
            assert(r@.name =~= seq![]);
            assert(r@.title =~= seq![]);
        }
        r
    }

    fn top(&self) -> (r: Option<Marker>)
        ensures
            r == top(self@),
    {
        if self.stack.len() == 0 {
            None
        } else {
            Some(self.stack[self.stack.len() - 1])
        }
    }

    fn emit(&mut self, b: Block)
        ensures
            final(self)@ == (DocState { blocks: old(self)@.blocks.push(b@), ..old(self)@ }),
    {
        self.blocks.push(b);
        proof {
            assert(self@.blocks =~= old(self)@.blocks.push(b@));
        }
    }

    fn add_leaf(&mut self, l: LeafBlock)
        ensures
            final(self)@ == (DocState { leaves: old(self)@.leaves.push(l@), ..old(self)@ }),
    {
        self.pre.leafs.push(l);
        proof {
            assert(self@.leaves =~= old(self)@.leaves.push(l@));
        }
    }

    fn route(&mut self, l: LeafBlock)
        ensures
            final(self)@ == route(old(self)@, l@),
    {
        if self.in_container {
            self.add_leaf(l);
        } else {
            self.emit(Block::LeafBlock(l));
        }
    }

    fn close_multi(&mut self)
        requires
            old(self)@.stack.len() > 0,
        ensures
            final(self)@ == (DocState {
                stack: old(self)@.stack.drop_last(),
                multi: seq![],
                ..old(self)@
            }),
    {
        self.stack.pop();
        self.multi_line = Vec::new();
        proof {
            assert(self@.stack =~= old(self)@.stack.drop_last());
            assert(self@.multi =~= seq![]);
        }
    }

    /// Feeds one line, given as chars.
    pub fn feed_chars(&mut self, l: &Vec<char>)
        ensures
            final(self)@ == step(old(self)@, l@),
    {
        let heading = starts_with_exec(l, &lit2('#', ' ')) || starts_with_exec(
            l,
            &lit3('#', '#', ' '),
        ) || starts_with_exec(l, &lit4('#', '#', '#', ' '));
        if heading && self.stack.len() == 0 {
            self.emit(Block::LeafBlock(LeafBlock::Heading(heading_of(l))));
        } else if starts_with_exec(l, &lit2('-', ' ')) {
            let item = LeafBlock::ListItem(list_item_of(l));
            if self.lists_in_container && self.top() == Some(Marker::Container) {
                self.add_leaf(item);
            } else {
                self.emit(Block::LeafBlock(item));
            }
        } else if starts_with_char(l, '|') {
        } else if starts_with_exec(l, &lit3('`', '`', '`')) {
            if self.top() == Some(Marker::Fence) {
                let code = fenced_code_of(&self.multi_line);
                self.route(LeafBlock::FencedCode(code));
                self.close_multi();
            } else {
                self.stack.push(Marker::Fence);
                self.multi_line.push(' ');
                push_all(&mut self.multi_line, &strip_lead_exec(l, '`'));
                self.multi_line.push('\r');
                self.multi_line.push('\n');
                proof {
                    assert(self@.multi =~= old(self)@.multi + seq![' '] + strip_lead(l@, '`')
                        + seq!['\r', '\n']);
                }
            }
        } else if starts_with_exec(l, &lit2('$', '$')) {
            if self.top() == Some(Marker::Math) {
                let math = display_math_of(&self.multi_line);
                self.route(LeafBlock::DisplayMath(math));
                self.close_multi();
            } else {
                self.stack.push(Marker::Math);
                proof {
                    assert(self@ == step(old(self)@, l@));
                }
            }
        } else if starts_with_exec(l, &lit2('%', '%')) {
            if self.stack.len() == 0 {
                let rest = strip_lead_exec(l, '%');
                let name = first_token_exec(&rest);
                let title = trim_exec(&after_first_token_exec(&rest));
                self.stack.push(Marker::Container);
                self.in_container = true;
                self.pre.name = string_of(&name);
                self.pre.title = string_of(&title);
                proof {
                    assert(self@ == step(old(self)@, l@));
                }
            } else if self.top() == Some(Marker::Container) {
                let mut leafs: Vec<LeafBlock> = Vec::new();
                std::mem::swap(&mut leafs, &mut self.pre.leafs);
                let done = Pre { name: self.pre.name.clone(), title: self.pre.title.clone(), leafs };
                self.emit(Block::ContainerBlock(ContainerBlock::Pre(done)));
                self.stack.pop();
                self.in_container = false;
                proof {
                    assert(self@.leaves =~= seq![]);
                    assert(self@.stack =~= old(self)@.stack.drop_last());
                }
            }
        } else {
            if self.top() == Some(Marker::Container) {
                self.add_leaf(LeafBlock::Paragraph(paragraph_of(l)));
            } else if self.stack.len() == 0 {
                self.emit(Block::LeafBlock(LeafBlock::Paragraph(paragraph_of(l))));
            } else {
                push_all(&mut self.multi_line, l);
                self.multi_line.push('\n');
                proof {
                    assert(self@.multi =~= old(self)@.multi + l@ + seq!['\n']);
                }
            }
        }
    }

    /// Feeds one line.
    pub fn feed_line(&mut self, line: &str)
        ensures
            final(self)@ == step(old(self)@, line@),
    {
        self.feed_chars(&chars_of(line));
    }

    /// The blocks emitted so far; what is still open is dropped.
    pub fn into_blocks(self) -> (r: Vec<Block>)
        ensures
            blocks_view(r@) == self@.blocks,
    {
        self.blocks
    }
}

/// Parses a document, line by line. `- ` lines go to the top level even inside
/// an open container; constructs still open at the end are dropped.
pub fn parse_doc(input: &String) -> (r: Vec<Block>)
    ensures
        blocks_view(r@) == doc_model(input@, false),
{
    parse_doc_with(input, false)
}

/// Parses a document; with `lists_in_container`, `- ` lines inside an open
/// container become leaves of that container.
pub fn parse_doc_with(input: &String, lists_in_container: bool) -> (r: Vec<Block>)
    ensures
        blocks_view(r@) == doc_model(input@, lists_in_container),
{
    let s = chars_of(input.as_str());
    let mut p = DocParser::new(lists_in_container);
    let ghost init = initial_state(lists_in_container);
    let mut start: usize = 0;
    let mut i: usize = 0;
    while i < s.len()
        invariant
            start <= i <= s.len(),
            run(init, lines_of(s@)) == run(p@, lines_scan(s@, start as int, i as int)),
        decreases s.len() - i,
    {
        if s[i] == '\n' {
            let mut line = slice_of(&s, start, i);
            if line.len() > 0 && line[line.len() - 1] == '\r' {
                line.pop();
            }
            proof {
                assert(line@ =~= strip_cr(s@.subrange(start as int, i as int)));
                let rest = lines_scan(s@, i + 1, i + 1);
                let all = seq![line@] + rest;
                assert(lines_scan(s@, start as int, i as int) == all);
                assert(all[0] == line@);
                assert(all.subrange(1, all.len() as int) =~= rest);
            }
            p.feed_chars(&line);
            start = i + 1;
        }
        i = i + 1;
    }
    if start < s.len() {
        let line = slice_of(&s, start, s.len());
        proof {
            let one = seq![line@];
            assert(lines_scan(s@, start as int, i as int) == one);
            assert(one.subrange(1, 1) =~= Seq::<Seq<char>>::empty());
        }
        p.feed_chars(&line);
        proof {
            assert(run(p@, Seq::<Seq<char>>::empty()) == p@);
        }
    } else {
        proof {
            assert(lines_scan(s@, start as int, i as int) == Seq::<Seq<char>>::empty());
        }
    }
    p.into_blocks()
}

/// The HTML of a document: each block's HTML, in order.
pub fn render(blocks: &Vec<Block>) -> (r: String)
    ensures
        r@ == doc_html(blocks_view(blocks@)),
{
    let mut html = String::new();
    let mut k: usize = 0;
    while k < blocks.len()
        invariant
            k <= blocks.len(),
            html@ == doc_html(blocks_view(blocks@.take(k as int))),
        decreases blocks.len() - k,
    {
        let h = blocks[k].tohtml();
        html.append(h.as_str());
        proof {
            let t = blocks_view(blocks@.take(k + 1));
            assert(t.drop_last() =~= blocks_view(blocks@.take(k as int)));
            assert(html@ =~= doc_html(t));
        }
        k = k + 1;
    }
    proof {
        assert(blocks@.take(k as int) =~= blocks@);
        if k == 0 {
            assert(html@ =~= doc_html(blocks_view(blocks@)));
        }
    }
    html
}

// ---------------------------------------------------------------- laws

/// The HTML of a parsed document is a function of its text alone: equal
/// texts give equal HTML.
pub proof fn lemma_render_depends_only_on_text(a: Seq<char>, b: Seq<char>, lists_in_container: bool)
    requires
        a == b,
    ensures
        doc_html(doc_model(a, lists_in_container)) == doc_html(doc_model(b, lists_in_container)),
{
}

/// A heading, paragraph or list item without spans renders to nothing, and so
/// renders the same however often it is rendered.
pub proof fn lemma_empty_leaf_renders_empty(l: LeafModel)
    requires
        match l {
            LeafModel::Heading { spans, .. } => spans.len() == 0,
            LeafModel::Paragraph { spans } => spans.len() == 0,
            LeafModel::ListItem { spans } => spans.len() == 0,
            _ => false,
        },
    ensures
        leaf_html(l) == Seq::<char>::empty(),
{
}

/// A container marker is only ever at the bottom of the stack.
pub open spec fn wf_stack(st: DocState) -> bool {
    forall|i: int| 0 < i < st.stack.len() ==> st.stack[i] != Marker::Container
}

pub open spec fn fence_open(st: DocState) -> bool {
    exists|i: int| 0 <= i < st.stack.len() && st.stack[i] == Marker::Fence
}

/// A top-level leaf other than fenced code.
pub open spec fn is_plain_leaf(b: BlockModel) -> bool {
    match b {
        BlockModel::Leaf(l) => !(l is FencedCode),
        _ => false,
    }
}

proof fn lemma_step_wf(st: DocState, l: Seq<char>)
    requires
        wf_stack(st),
    ensures
        wf_stack(step(st, l)),
{
    let s1 = step(st, l);
    assert forall|i: int| 0 < i < s1.stack.len() implies s1.stack[i] != Marker::Container by {
        if i < st.stack.len() {
            assert(s1.stack[i] == st.stack[i]);
        }
    }
}

/// The parser's reachable states keep container markers at the bottom.
pub proof fn lemma_run_wf(st: DocState, lines: Seq<Seq<char>>)
    requires
        wf_stack(st),
    ensures
        wf_stack(run(st, lines)),
    decreases lines.len(),
{
    if lines.len() > 0 {
        lemma_step_wf(st, lines[0]);
        lemma_run_wf(step(st, lines[0]), lines.subrange(1, lines.len() as int));
    }
}

/// Feeding `a` then `b` is feeding `a + b`.
pub proof fn lemma_run_concat(st: DocState, a: Seq<Seq<char>>, b: Seq<Seq<char>>)
    ensures
        run(st, a + b) == run(run(st, a), b),
    decreases a.len(),
{
    if a.len() == 0 {
        assert(a + b =~= b);
    } else {
        let ab = a + b;
        assert(ab[0] == a[0]);
        assert(ab.subrange(1, ab.len() as int) =~= a.subrange(1, a.len() as int) + b);
        lemma_run_concat(step(st, a[0]), a.subrange(1, a.len() as int), b);
    }
}

proof fn lemma_step_in_fence(st: DocState, l: Seq<char>)
    requires
        wf_stack(st),
        fence_open(st),
        !is_fence_line(l),
    ensures
        wf_stack(step(st, l)),
        fence_open(step(st, l)),
        step(st, l).blocks == st.blocks || (step(st, l).blocks.len() == st.blocks.len() + 1
            && step(st, l).blocks.drop_last() == st.blocks && is_plain_leaf(
            step(st, l).blocks.last(),
        )),
{
    let s1 = step(st, l);
    lemma_step_wf(st, l);
    let i = choose|i: int| 0 <= i < st.stack.len() && st.stack[i] == Marker::Fence;
    if top(st) == Some(Marker::Container) {
        assert(st.stack.len() - 1 == 0);
        assert(false);
    }
    if i < s1.stack.len() {
        assert(s1.stack[i] == st.stack[i]);
    }
    if s1.blocks != st.blocks {
        assert(s1.blocks.drop_last() =~= st.blocks);
    }
}

/// Once a fence is open and no later line is a fence line, no fenced code and
/// no container is emitted: the blocks already emitted stay, and every new one
/// is a leaf other than fenced code.
pub proof fn lemma_open_fence_emits_no_code(st: DocState, lines: Seq<Seq<char>>)
    requires
        wf_stack(st),
        fence_open(st),
        forall|k: int| 0 <= k < lines.len() ==> !is_fence_line(#[trigger] lines[k]),
    ensures
        run(st, lines).blocks.len() >= st.blocks.len(),
        run(st, lines).blocks.subrange(0, st.blocks.len() as int) == st.blocks,
        forall|j: int|
            st.blocks.len() <= j < run(st, lines).blocks.len() ==> is_plain_leaf(
                #[trigger] run(st, lines).blocks[j],
            ),
    decreases lines.len(),
{
    let r = run(st, lines);
    if lines.len() == 0 {
        assert(r.blocks.subrange(0, st.blocks.len() as int) =~= st.blocks);
    } else {
        let s1 = step(st, lines[0]);
        let rest = lines.subrange(1, lines.len() as int);
        lemma_step_in_fence(st, lines[0]);
        assert forall|k: int| 0 <= k < rest.len() implies !is_fence_line(#[trigger] rest[k]) by {
            assert(rest[k] == lines[k + 1]);
        }
        lemma_open_fence_emits_no_code(s1, rest);
        assert(r == run(s1, rest));
        let n = st.blocks.len() as int;
        let n1 = s1.blocks.len() as int;
        assert(r.blocks.subrange(0, n) =~= s1.blocks.subrange(0, n)) by {
            assert forall|j: int| 0 <= j < n implies r.blocks[j] == s1.blocks[j] by {
                assert(r.blocks.subrange(0, n1)[j] == r.blocks[j]);
            }
        }
        if s1.blocks != st.blocks {
            assert(s1.blocks.subrange(0, n) =~= s1.blocks.drop_last());
            assert(r.blocks[n] == r.blocks.subrange(0, n1)[n]);
        } else {
            assert(s1.blocks.subrange(0, n) =~= st.blocks);
        }
    }
}

/// A fence that opens and never closes yields no fenced code: after the lines
/// `before`, the fence line `open` and the lines `after`, none of them a fence
/// line, the blocks emitted before the fence stay and every later one is a leaf
/// other than fenced code.
pub proof fn lemma_unterminated_fence_emits_no_code(
    before: Seq<Seq<char>>,
    open: Seq<char>,
    after: Seq<Seq<char>>,
    lists_in_container: bool,
)
    requires
        is_fence_line(open),
        top(run(initial_state(lists_in_container), before)) != Some(Marker::Fence),
        forall|k: int| 0 <= k < after.len() ==> !is_fence_line(#[trigger] after[k]),
    ensures
        ({
            let s0 = run(initial_state(lists_in_container), before);
            let r = run(initial_state(lists_in_container), before + seq![open] + after);
            r.blocks.len() >= s0.blocks.len() && r.blocks.subrange(0, s0.blocks.len() as int)
                == s0.blocks && forall|j: int|
                s0.blocks.len() <= j < r.blocks.len() ==> is_plain_leaf(#[trigger] r.blocks[j])
        }),
{
    let init = initial_state(lists_in_container);
    let s0 = run(init, before);
    lemma_run_wf(init, before);
    assert(open.subrange(0, 3) == seq!['`', '`', '`']);
    assert(open[0] == open.subrange(0, 3)[0]);
    assert(!is_heading_line(open)) by {
        if starts_with(open, seq!['#', ' ']) {
            assert(open[0] == open.subrange(0, 2)[0]);
        }
        if starts_with(open, seq!['#', '#', ' ']) {
            assert(open[0] == open.subrange(0, 3)[0]);
        }
        if starts_with(open, seq!['#', '#', '#', ' ']) {
            assert(open[0] == open.subrange(0, 4)[0]);
        }
    }
    assert(!is_list_line(open)) by {
        if is_list_line(open) {
            assert(open[0] == open.subrange(0, 2)[0]);
        }
    }
    assert(!is_table_line(open)) by {
        if is_table_line(open) {
            assert(open[0] == open.subrange(0, 1)[0]);
        }
    }
    let s1 = step(s0, open);
    assert(s1.stack == s0.stack.push(Marker::Fence));
    assert(s1.stack[s1.stack.len() - 1] == Marker::Fence);
    assert(s1.blocks == s0.blocks);
    lemma_step_wf(s0, open);
    assert(seq![open].subrange(1, 1) =~= Seq::<Seq<char>>::empty());
    assert(run(s1, Seq::<Seq<char>>::empty()) == s1);
    assert(run(s0, seq![open]) == s1);
    lemma_run_concat(init, before, seq![open]);
    lemma_run_concat(init, before + seq![open], after);
    lemma_open_fence_emits_no_code(s1, after);
}

/// A block that is fenced code, or a container that holds some.
pub open spec fn has_code(b: BlockModel) -> bool {
    match b {
        BlockModel::Leaf(l) => l is FencedCode,
        BlockModel::Container { leaves, .. } => exists|k: int|
            0 <= k < leaves.len() && (#[trigger] leaves[k]) is FencedCode,
    }
}

pub open spec fn no_code(blocks: Seq<BlockModel>) -> bool {
    forall|j: int| 0 <= j < blocks.len() ==> !has_code(#[trigger] blocks[j])
}

pub open spec fn no_code_leaves(leaves: Seq<LeafModel>) -> bool {
    forall|k: int| 0 <= k < leaves.len() ==> !((#[trigger] leaves[k]) is FencedCode)
}

pub open spec fn no_fence_marker(st: DocState) -> bool {
    forall|i: int| 0 <= i < st.stack.len() ==> st.stack[i] != Marker::Fence
}

pub open spec fn no_fence_lines(lines: Seq<Seq<char>>) -> bool {
    forall|k: int| 0 <= k < lines.len() ==> !is_fence_line(#[trigger] lines[k])
}

proof fn lemma_no_fence_lines_rest(lines: Seq<Seq<char>>)
    requires
        no_fence_lines(lines),
        lines.len() > 0,
    ensures
        !is_fence_line(lines[0]),
        no_fence_lines(lines.subrange(1, lines.len() as int)),
{
    let rest = lines.subrange(1, lines.len() as int);
    assert forall|k: int| 0 <= k < rest.len() implies !is_fence_line(#[trigger] rest[k]) by {
        assert(rest[k] == lines[k + 1]);
    }
}

proof fn lemma_step_without_fence(st: DocState, l: Seq<char>)
    requires
        no_fence_marker(st),
        no_code(st.blocks),
        no_code_leaves(st.leaves),
        !is_fence_line(l),
    ensures
        no_fence_marker(step(st, l)),
        no_code(step(st, l).blocks),
        no_code_leaves(step(st, l).leaves),
{
    let s1 = step(st, l);
    assert forall|i: int| 0 <= i < s1.stack.len() implies s1.stack[i] != Marker::Fence by {
        if i < st.stack.len() {
            assert(s1.stack[i] == st.stack[i]);
        }
    }
    assert forall|k: int| 0 <= k < s1.leaves.len() implies !((#[trigger] s1.leaves[k]) is FencedCode) by {
        if k < st.leaves.len() {
            assert(s1.leaves[k] == st.leaves[k]);
        }
    }
    assert forall|j: int| 0 <= j < s1.blocks.len() implies !has_code(#[trigger] s1.blocks[j]) by {
        if j < st.blocks.len() {
            assert(s1.blocks[j] == st.blocks[j]);
        } else {
            assert(s1.blocks[j] == s1.blocks.last());
            if let BlockModel::Container { leaves, .. } = s1.blocks[j] {
                assert(leaves == st.leaves);
            }
        }
    }
}

/// Without a fence line, no fence opens and no fenced code is emitted.
pub proof fn lemma_no_fence_line_no_code(st: DocState, lines: Seq<Seq<char>>)
    requires
        no_fence_marker(st),
        no_code(st.blocks),
        no_code_leaves(st.leaves),
        no_fence_lines(lines),
    ensures
        no_fence_marker(run(st, lines)),
        no_code(run(st, lines).blocks),
    decreases lines.len(),
{
    if lines.len() > 0 {
        lemma_no_fence_lines_rest(lines);
        lemma_step_without_fence(st, lines[0]);
        lemma_no_fence_line_no_code(step(st, lines[0]), lines.subrange(1, lines.len() as int));
    }
}

/// A document whose only fence line opens a fence that never closes holds no
/// fenced code, neither at the top level nor inside a container.
pub proof fn lemma_single_unclosed_fence_no_code(
    text: Seq<char>,
    before: Seq<Seq<char>>,
    open: Seq<char>,
    after: Seq<Seq<char>>,
    lists_in_container: bool,
)
    requires
        lines_of(text) == before + seq![open] + after,
        is_fence_line(open),
        no_fence_lines(before),
        no_fence_lines(after),
    ensures
        no_code(doc_model(text, lists_in_container)),
{
    let init = initial_state(lists_in_container);
    assert(no_code(init.blocks));
    assert(no_code_leaves(init.leaves));
    lemma_no_fence_line_no_code(init, before);
    let s0 = run(init, before);
    lemma_unterminated_fence_emits_no_code(before, open, after, lists_in_container);
    let r = run(init, before + seq![open] + after);
    assert forall|j: int| 0 <= j < r.blocks.len() implies !has_code(#[trigger] r.blocks[j]) by {
        if j < s0.blocks.len() {
            assert(r.blocks.subrange(0, s0.blocks.len() as int)[j] == r.blocks[j]);
            assert(!has_code(s0.blocks[j]));
        } else {
            assert(is_plain_leaf(r.blocks[j]));
        }
    }
}

proof fn lemma_step_in_fence_quiet(st: DocState, l: Seq<char>)
    requires
        wf_stack(st),
        fence_open(st),
        !is_fence_line(l),
        !is_math_line(l),
        !is_list_line(l),
    ensures
        wf_stack(step(st, l)),
        fence_open(step(st, l)),
        step(st, l).blocks == st.blocks,
{
    lemma_step_in_fence(st, l);
    if top(st) == Some(Marker::Container) {
        let i = choose|i: int| 0 <= i < st.stack.len() && st.stack[i] == Marker::Fence;
        assert(st.stack.len() - 1 == 0);
        assert(false);
    }
}

/// While a fence is open, lines that are neither fence, display-math nor
/// list-item lines emit nothing.
pub proof fn lemma_open_fence_swallows_lines(st: DocState, lines: Seq<Seq<char>>)
    requires
        wf_stack(st),
        fence_open(st),
        forall|k: int|
            0 <= k < lines.len() ==> !is_fence_line(#[trigger] lines[k]) && !is_math_line(
                lines[k],
            ) && !is_list_line(lines[k]),
    ensures
        run(st, lines).blocks == st.blocks,
    decreases lines.len(),
{
    if lines.len() > 0 {
        let rest = lines.subrange(1, lines.len() as int);
        assert forall|k: int| 0 <= k < rest.len() implies !is_fence_line(#[trigger] rest[k])
            && !is_math_line(rest[k]) && !is_list_line(rest[k]) by {
            assert(rest[k] == lines[k + 1]);
        }
        assert(!is_fence_line(lines[0]));
        lemma_step_in_fence_quiet(st, lines[0]);
        lemma_open_fence_swallows_lines(step(st, lines[0]), rest);
    }
}

/// A fence that opens and never closes consumes the rest of the document: where
/// no later line is a fence, display-math or list-item line, the document's
/// blocks are those of the lines before the fence.
pub proof fn lemma_unclosed_fence_drops_rest(
    text: Seq<char>,
    before: Seq<Seq<char>>,
    open: Seq<char>,
    after: Seq<Seq<char>>,
    lists_in_container: bool,
)
    requires
        lines_of(text) == before + seq![open] + after,
        is_fence_line(open),
        top(run(initial_state(lists_in_container), before)) != Some(Marker::Fence),
        forall|k: int|
            0 <= k < after.len() ==> !is_fence_line(#[trigger] after[k]) && !is_math_line(
                after[k],
            ) && !is_list_line(after[k]),
    ensures
        doc_model(text, lists_in_container) == run(initial_state(lists_in_container), before).blocks,
{
    let init = initial_state(lists_in_container);
    let s0 = run(init, before);
    lemma_run_wf(init, before);
    assert(forall|k: int| 0 <= k < after.len() ==> !is_fence_line(#[trigger] after[k]));
    lemma_unterminated_fence_emits_no_code(before, open, after, lists_in_container);
    let s1 = step(s0, open);
    lemma_step_wf(s0, open);
    assert(open[0] == open.subrange(0, 3)[0]);
    assert(!is_heading_line(open)) by {
        if starts_with(open, seq!['#', ' ']) {
            assert(open[0] == open.subrange(0, 2)[0]);
        }
        if starts_with(open, seq!['#', '#', ' ']) {
            assert(open[0] == open.subrange(0, 3)[0]);
        }
        if starts_with(open, seq!['#', '#', '#', ' ']) {
            assert(open[0] == open.subrange(0, 4)[0]);
        }
    }
    assert(!is_list_line(open)) by {
        if is_list_line(open) {
            assert(open[0] == open.subrange(0, 2)[0]);
        }
    }
    assert(!is_table_line(open)) by {
        if is_table_line(open) {
            assert(open[0] == open.subrange(0, 1)[0]);
        }
    }
    assert(s1.stack[s1.stack.len() - 1] == Marker::Fence);
    assert(s1.blocks == s0.blocks);
    assert(seq![open].subrange(1, 1) =~= Seq::<Seq<char>>::empty());
    assert(run(s1, Seq::<Seq<char>>::empty()) == s1);
    assert(run(s0, seq![open]) == s1);
    lemma_run_concat(init, before, seq![open]);
    lemma_run_concat(init, before + seq![open], after);
    lemma_open_fence_swallows_lines(s1, after);
}

} // verus!
