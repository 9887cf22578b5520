//! A parsed HTML document as a list of nodes in tree order, and the
//! extraction of the `data-table` table from it.

use crate::csv::{csv_document, document_of, table_texts};
use crate::strings::{same_text, texts};
use crate::text::{collapse_whitespace, collapsed, lemma_collapsed_single_spaced, single_spaced};
use vstd::prelude::*;

verus! {

/// What a node of the document is.
pub enum NodeKind {
    /// An element, with its tag name and its `id` attribute if it has one.
    Element { name: String, id: Option<String> },
    /// A run of character data.
    Text { text: String },
    /// The document itself, a comment, a doctype or the like.
    Other,
}

/// A node of the document with its depth: the number of its ancestors.
/// Listed in tree order, the nodes below a node are the ones that follow
/// it and stand deeper than it.
pub struct DocNode {
    pub depth: usize,
    pub kind: NodeKind,
}

/// What a node is, as plain values.
pub enum KindView {
    Element { name: Seq<char>, id: Option<Seq<char>> },
    Text { text: Seq<char> },
    Other,
}

/// A node as plain values: its depth and what it is.
pub struct NodeView {
    pub depth: nat,
    pub kind: KindView,
}

impl View for DocNode {
    type V = NodeView;

    open spec fn view(&self) -> NodeView {
        NodeView {
            depth: self.depth as nat,
            kind: match self.kind {
                NodeKind::Element { name, id } => KindView::Element {
                    name: name@,
                    id: match id {
                        Some(v) => Some(v@),
                        None => None,
                    },
                },
                NodeKind::Text { text } => KindView::Text { text: text@ },
                NodeKind::Other => KindView::Other,
            },
        }
    }
}

/// The rows found in the document's `data-table` table.
pub struct Table {
    /// The text of each header cell.
    pub header: Vec<String>,
    /// The data rows, each the normalised text of its data cells.
    pub rows: Vec<Vec<String>>,
}

/// The nodes of a document as plain values.
pub open spec fn nodes_view(v: Seq<DocNode>) -> Seq<NodeView> {
    v.map_values(|n: DocNode| n@)
}

/// Node `j` is an ancestor of node `i`: it comes before `i`, and every node
/// from just after it up to `i` stands deeper.
pub open spec fn is_ancestor(s: Seq<NodeView>, i: int, j: int) -> bool {
    0 <= j < i < s.len() && forall|k: int| j < k <= i ==> s[k].depth > s[j].depth
}

/// Node `j` is the parent of node `i`.
pub open spec fn is_child(s: Seq<NodeView>, i: int, j: int) -> bool {
    is_ancestor(s, i, j) && s[i].depth == s[j].depth + 1
}

pub open spec fn is_element(n: NodeView, tag: Seq<char>) -> bool {
    match n.kind {
        KindView::Element { name, .. } => name == tag,
        _ => false,
    }
}

/// The table element whose `id` is `data-table`.
pub open spec fn is_target_table(n: NodeView) -> bool {
    match n.kind {
        KindView::Element { name, id } => name == "table"@ && id == Some("data-table"@),
        _ => false,
    }
}

/// An element whose text children are visible: neither `script` nor `style`.
pub open spec fn shows_text(n: NodeView) -> bool {
    match n.kind {
        KindView::Element { name, .. } => name != "script"@ && name != "style"@,
        _ => false,
    }
}

pub open spec fn text_of(n: NodeView) -> Seq<char> {
    match n.kind {
        KindView::Text { text } => text,
        _ => Seq::empty(),
    }
}

pub open spec fn is_text(n: NodeView) -> bool {
    n.kind is Text
}

/// A `th` inside a `tr` inside a `thead` inside the target table.
pub open spec fn is_header_cell(s: Seq<NodeView>, i: int) -> bool {
    is_element(s[i], "th"@) && exists|c: int, b: int, a: int|
        c < b < a && #[trigger] is_ancestor(s, i, a) && #[trigger] is_ancestor(s, i, b)
            && #[trigger] is_ancestor(s, i, c) && is_element(s[a], "tr"@) && is_element(
            s[b],
            "thead"@,
        ) && is_target_table(s[c])
}

/// A `tr` anywhere inside the target table.
pub open spec fn is_table_row(s: Seq<NodeView>, i: int) -> bool {
    is_element(s[i], "tr"@) && exists|c: int| #[trigger]
        is_ancestor(s, i, c) && is_target_table(s[c])
}

/// All the text below node `i`, among the nodes before `hi`, in order.
pub open spec fn text_below(s: Seq<NodeView>, i: int, hi: int) -> Seq<char>
    decreases hi - i,
{
    if hi <= i + 1 {
        Seq::empty()
    } else if is_ancestor(s, hi - 1, i) && is_text(s[hi - 1]) {
        text_below(s, i, hi - 1) + text_of(s[hi - 1])
    } else {
        text_below(s, i, hi - 1)
    }
}

/// The text nodes that are children of node `i`, among the nodes before
/// `hi`, where `i` is an element other than `script` or `style`; text
/// deeper down is left out.
pub open spec fn own_text(s: Seq<NodeView>, i: int, hi: int) -> Seq<char>
    decreases hi - i,
{
    if hi <= i + 1 {
        Seq::empty()
    } else if is_child(s, hi - 1, i) && is_text(s[hi - 1]) && shows_text(s[i]) {
        own_text(s, i, hi - 1) + text_of(s[hi - 1])
    } else {
        own_text(s, i, hi - 1)
    }
}

/// The text of a data cell: its own visible text, whitespace collapsed.
pub open spec fn cell_text(s: Seq<NodeView>, k: int) -> Seq<char> {
    collapsed(own_text(s, k, s.len() as int))
}

/// The texts of the `td` children of node `i` among the nodes before `hi`.
pub open spec fn cells_upto(s: Seq<NodeView>, i: int, hi: int) -> Seq<Seq<char>>
    decreases hi - i,
{
    if hi <= i + 1 {
        Seq::empty()
    } else if is_child(s, hi - 1, i) && is_element(s[hi - 1], "td"@) {
        cells_upto(s, i, hi - 1).push(cell_text(s, hi - 1))
    } else {
        cells_upto(s, i, hi - 1)
    }
}

pub open spec fn row_cells(s: Seq<NodeView>, i: int) -> Seq<Seq<char>> {
    cells_upto(s, i, s.len() as int)
}

/// The header texts among the nodes before `hi`.
pub open spec fn headers_upto(s: Seq<NodeView>, hi: int) -> Seq<Seq<char>>
    decreases hi,
{
    if hi <= 0 {
        Seq::empty()
    } else if is_header_cell(s, hi - 1) {
        headers_upto(s, hi - 1).push(text_below(s, hi - 1, s.len() as int))
    } else {
        headers_upto(s, hi - 1)
    }
}

/// The data rows among the nodes before `hi`: rows of the target table that
/// have at least one data cell.
pub open spec fn rows_upto(s: Seq<NodeView>, hi: int) -> Seq<Seq<Seq<char>>>
    decreases hi,
{
    if hi <= 0 {
        Seq::empty()
    } else if is_table_row(s, hi - 1) && row_cells(s, hi - 1).len() > 0 {
        rows_upto(s, hi - 1).push(row_cells(s, hi - 1))
    } else {
        rows_upto(s, hi - 1)
    }
}

pub open spec fn header_of(s: Seq<NodeView>) -> Seq<Seq<char>> {
    headers_upto(s, s.len() as int)
}

pub open spec fn rows_of(s: Seq<NodeView>) -> Seq<Seq<Seq<char>>> {
    rows_upto(s, s.len() as int)
}

/// Whether the node is an element with the given tag name.
pub fn element_named(n: &DocNode, tag: &str) -> (r: bool)
    ensures
        r == is_element(n@, tag@),
{
    match &n.kind {
        NodeKind::Element { name, .. } => same_text(name.as_str(), tag),
        _ => false,
    }
}

/// Whether the node is the table whose `id` is `data-table`.
pub fn is_target(n: &DocNode) -> (r: bool)
    ensures
        r == is_target_table(n@),
{
    proof {
        reveal_strlit("table");
        reveal_strlit("data-table");
    }
    match &n.kind {
        NodeKind::Element { name, id } => {
            if !same_text(name.as_str(), "table") {
                return false;
            }
            match id {
                Some(v) => same_text(v.as_str(), "data-table"),
                None => false,
            }
        },
        _ => false,
    }
}

/// Whether node `i` stands inside the target table.
pub fn in_target_table(doc: &Vec<DocNode>, i: usize) -> (r: bool)
    requires
        i < doc.len(),
    ensures
        r == exists|c: int| #[trigger]
            is_ancestor(nodes_view(doc@), i as int, c) && is_target_table(nodes_view(doc@)[c]),
{
    let ghost s = nodes_view(doc@);
    let mut j: usize = i;
    let mut m: usize = doc[i].depth;
    let ghost mut mi: int = i as int;
    while j > 0
        invariant
            j <= i < doc.len(),
            s == nodes_view(doc@),
            j <= mi <= i,
            s[mi].depth == m,
            forall|k: int| j <= k <= i ==> s[k].depth >= m,
            forall|c: int| j <= c < i && #[trigger] is_ancestor(s, i as int, c) ==> !is_target_table(s[c]),
        decreases j,
    {
        j = j - 1;
        assert(s[j as int] == doc@[j as int]@);
        if doc[j].depth < m {
            assert(is_ancestor(s, i as int, j as int));
            if is_target(&doc[j]) {
                return true;
            }
            m = doc[j].depth;
            proof {
                mi = j as int;
            }
        } else {
            assert(!is_ancestor(s, i as int, j as int)) by {
                assert(s[mi].depth <= s[j as int].depth);
            }
        }
    }
    false
}

/// Whether node `i` is a header cell: a `th` with a `tr`, a `thead` and the
/// target table among its ancestors, from the nearest out.
pub fn header_cell_at(doc: &Vec<DocNode>, i: usize) -> (r: bool)
    requires
        i < doc.len(),
    ensures
        r == is_header_cell(nodes_view(doc@), i as int),
{
    let ghost s = nodes_view(doc@);
    proof {
        reveal_strlit("th");
        reveal_strlit("tr");
        reveal_strlit("thead");
    }
    assert(s[i as int] == doc@[i as int]@);
    if !element_named(&doc[i], "th") {
        return false;
    }
    let mut j: usize = i;
    let mut m: usize = doc[i].depth;
    let ghost mut mi: int = i as int;
    let mut stage: u8 = 0;
    let ghost mut wa: int = 0;
    let ghost mut wb: int = 0;
    while j > 0
        invariant
            j <= i < doc.len(),
            s == nodes_view(doc@),
            is_element(s[i as int], "th"@),
            j <= mi <= i,
            s[mi].depth == m,
            forall|k: int| j <= k <= i ==> s[k].depth >= m,
            stage <= 2,
            stage >= 1 ==> j <= wa < i && is_ancestor(s, i as int, wa) && is_element(s[wa], "tr"@),
            stage >= 2 ==> j <= wb < wa && is_ancestor(s, i as int, wb) && is_element(
                s[wb],
                "thead"@,
            ),
            stage < 1 ==> forall|a: int|
                j <= a < i && #[trigger] is_ancestor(s, i as int, a) ==> !is_element(s[a], "tr"@),
            stage < 2 ==> forall|b: int, a: int|
                j <= b < a < i && #[trigger] is_ancestor(s, i as int, a) && #[trigger] is_ancestor(
                    s,
                    i as int,
                    b,
                ) && is_element(s[a], "tr"@) ==> !is_element(s[b], "thead"@),
            forall|c: int, b: int, a: int|
                j <= c < b < a < i && #[trigger] is_ancestor(s, i as int, a) && #[trigger] is_ancestor(
                    s,
                    i as int,
                    b,
                ) && #[trigger] is_ancestor(s, i as int, c) && is_element(s[a], "tr"@) && is_element(
                    s[b],
                    "thead"@,
                ) ==> !is_target_table(s[c]),
        decreases j,
    {
        j = j - 1;
        assert(s[j as int] == doc@[j as int]@);
        if doc[j].depth < m {
            assert(is_ancestor(s, i as int, j as int));
            if stage == 0 {
                if element_named(&doc[j], "tr") {
                    stage = 1;
                    proof {
                        wa = j as int;
                    }
                }
            } else if stage == 1 {
                if element_named(&doc[j], "thead") {
                    stage = 2;
                    proof {
                        wb = j as int;
                    }
                }
            } else if is_target(&doc[j]) {
                assert(is_ancestor(s, i as int, wa) && is_ancestor(s, i as int, wb) && is_ancestor(
                    s,
                    i as int,
                    j as int,
                ));
                return true;
            }
            m = doc[j].depth;
            proof {
                mi = j as int;
            }
        } else {
            assert(!is_ancestor(s, i as int, j as int)) by {
                assert(s[mi].depth <= s[j as int].depth);
            }
        }
    }
    false
}

/// All the text below node `i`, in tree order.
pub fn all_text(doc: &Vec<DocNode>, i: usize) -> (r: String)
    requires
        i < doc.len(),
    ensures
        r@ == text_below(nodes_view(doc@), i as int, doc@.len() as int),
{
    let ghost s = nodes_view(doc@);
    let mut out = String::new();
    let mut inside = true;
    let mut k: usize = i + 1;
    while k < doc.len()
        invariant
            i < k <= doc.len(),
            s == nodes_view(doc@),
            inside == forall|q: int| i < q < k ==> s[q].depth > s[i as int].depth,
            out@ == text_below(s, i as int, k as int),
        decreases doc.len() - k,
    {
        assert(s[k as int] == doc@[k as int]@);
        assert(s[i as int] == doc@[i as int]@);
        inside = inside && doc[k].depth > doc[i].depth;
        assert(inside == is_ancestor(s, k as int, i as int));
        if inside {
            match &doc[k].kind {
                NodeKind::Text { text } => out.append(text.as_str()),
                _ => {},
            }
        }
        k = k + 1;
    }
    out
}

/// The text nodes directly below node `i`, unless `i` is a `script` or
/// `style` element (or no element at all).
pub fn visible_text(doc: &Vec<DocNode>, i: usize) -> (r: String)
    requires
        i < doc.len(),
    ensures
        r@ == own_text(nodes_view(doc@), i as int, doc@.len() as int),
{
    let ghost s = nodes_view(doc@);
    assert(s[i as int] == doc@[i as int]@);
    proof {
        reveal_strlit("script");
        reveal_strlit("style");
    }
    let shows = match &doc[i].kind {
        NodeKind::Element { name, .. } => !same_text(name.as_str(), "script") && !same_text(
            name.as_str(),
            "style",
        ),
        _ => false,
    };
    let mut out = String::new();
    let mut inside = true;
    let mut k: usize = i + 1;
    while k < doc.len()
        invariant
            i < k <= doc.len(),
            s == nodes_view(doc@),
            shows == shows_text(s[i as int]),
            inside == forall|q: int| i < q < k ==> s[q].depth > s[i as int].depth,
            out@ == own_text(s, i as int, k as int),
        decreases doc.len() - k,
    {
        assert(s[k as int] == doc@[k as int]@);
        inside = inside && doc[k].depth > doc[i].depth;
        assert(inside == is_ancestor(s, k as int, i as int));
        if shows && inside && doc[k].depth - 1 == doc[i].depth {
            match &doc[k].kind {
                NodeKind::Text { text } => out.append(text.as_str()),
                _ => {},
            }
        }
        k = k + 1;
    }
    out
}

/// The normalised texts of the `td` children of node `i`, in order.
pub fn cells_of_row(doc: &Vec<DocNode>, i: usize) -> (r: Vec<String>)
    requires
        i < doc.len(),
    ensures
        texts(r@) == row_cells(nodes_view(doc@), i as int),
{
    let ghost s = nodes_view(doc@);
    proof {
        reveal_strlit("td");
    }
    let mut out: Vec<String> = Vec::new();
    let mut inside = true;
    let mut k: usize = i + 1;
    while k < doc.len()
        invariant
            i < k <= doc.len(),
            s == nodes_view(doc@),
            inside == forall|q: int| i < q < k ==> s[q].depth > s[i as int].depth,
            texts(out@) == cells_upto(s, i as int, k as int),
        decreases doc.len() - k,
    {
        assert(s[k as int] == doc@[k as int]@);
        assert(s[i as int] == doc@[i as int]@);
        inside = inside && doc[k].depth > doc[i].depth;
        assert(inside == is_ancestor(s, k as int, i as int));
        if inside && doc[k].depth - 1 == doc[i].depth && element_named(&doc[k], "td") {
            let raw = visible_text(doc, k);
            let cell = collapse_whitespace(raw.as_str());
            out.push(cell);
            assert(texts(out@) =~= cells_upto(s, i as int, k as int).push(cell_text(s, k as int)));
        }
        k = k + 1;
    }
    out
}

/// The header cells' texts and the data rows of the target table, in
/// document order. Rows without a data cell are left out.
pub fn extract_table(doc: &Vec<DocNode>) -> (r: Table)
    ensures
        texts(r.header@) == header_of(nodes_view(doc@)),
        table_texts(r.rows@) == rows_of(nodes_view(doc@)),
{
    let ghost s = nodes_view(doc@);
    proof {
        reveal_strlit("tr");
    }
    let mut header: Vec<String> = Vec::new();
    let mut rows: Vec<Vec<String>> = Vec::new();
    let mut i: usize = 0;
    while i < doc.len()
        invariant
            i <= doc.len(),
            s == nodes_view(doc@),
            texts(header@) == headers_upto(s, i as int),
            table_texts(rows@) == rows_upto(s, i as int),
        decreases doc.len() - i,
    {
        assert(s[i as int] == doc@[i as int]@);
        if header_cell_at(doc, i) {
            let t = all_text(doc, i);
            header.push(t);
            assert(texts(header@) =~= headers_upto(s, i as int).push(
                text_below(s, i as int, s.len() as int),
            ));
        }
        if element_named(&doc[i], "tr") && in_target_table(doc, i) {
            let cells = cells_of_row(doc, i);
            if cells.len() > 0 {
                rows.push(cells);
                assert(table_texts(rows@) =~= rows_upto(s, i as int).push(row_cells(s, i as int)));
            }
        }
        i = i + 1;
    }
    Table { header, rows }
}

/// The nodes that HTML parsing makes of a text, in tree order.
pub uninterp spec fn parsed(html: Seq<char>) -> Seq<NodeView>;

/// Relies on `scraper::Html::parse_document` for the (lenient, never
/// failing) parse, on ego_tree's `descendants` for tree order, starting at
/// the document node, and on its `ancestors` to count a node's depth.
#[verifier::external_body]
fn parse_nodes(html: &str) -> (r: Vec<DocNode>)
    ensures
        nodes_view(r@) == parsed(html@),
{
    let document = scraper::Html::parse_document(html);
    document.tree.root().descendants().map(|n| DocNode {
        depth: n.ancestors().count(),
        kind: match n.value() {
            scraper::Node::Element(e) => NodeKind::Element {
                name: e.name().to_string(),
                id: e.attr("id").map(String::from),
            },
            scraper::Node::Text(t) => NodeKind::Text { text: t.to_string() },
            _ => NodeKind::Other,
        },
    }).collect()
}

/// Parses an HTML text and extracts its `data-table` table. A text without
/// such a table gives no header cells and no rows.
pub fn scrape_table(html: &str) -> (r: Table)
    ensures
        texts(r.header@) == header_of(parsed(html@)),
        table_texts(r.rows@) == rows_of(parsed(html@)),
{
    let doc = parse_nodes(html);
    extract_table(&doc)
}

impl Table {
    /// The table as CSV: the header line, then one line per data row.
    pub fn to_csv(&self) -> (r: String)
        ensures
            r@ == document_of(seq![texts(self.header@)] + table_texts(self.rows@)),
    {
        csv_document(&self.header, &self.rows)
    }
}

/// `s` with the text of node `t` replaced by `x`.
pub open spec fn with_text(s: Seq<NodeView>, t: int, x: Seq<char>) -> Seq<NodeView> {
    s.update(t, NodeView { depth: s[t].depth, kind: KindView::Text { text: x } })
}

proof fn lemma_own_text_frame(s: Seq<NodeView>, k: int, t: int, x: Seq<char>, hi: int)
    requires
        0 <= k < t < s.len(),
        s[t].depth != s[k].depth + 1,
        hi <= s.len(),
    ensures
        own_text(with_text(s, t, x), k, hi) == own_text(s, k, hi),
    decreases hi - k,
{
    let s2 = with_text(s, t, x);
    assert forall|q: int| 0 <= q < s.len() implies s2[q].depth == s[q].depth by {}
    if hi > k + 1 {
        lemma_own_text_frame(s, k, t, x, hi - 1);
        assert(is_child(s2, hi - 1, k) == is_child(s, hi - 1, k));
        if hi - 1 != t {
            assert(s2[hi - 1] == s[hi - 1]);
        }
        assert(s2[k] == s[k]);
    }
}

/// The text inside a `script` or `style` element that is a child of a cell
/// never reaches the cell's text, whatever it holds; a text child of the
/// cell itself is kept, after the text children before it.
pub proof fn lemma_script_text_excluded(
    s: Seq<NodeView>,
    k: int,
    p: int,
    t: int,
    x: Seq<char>,
)
    requires
        is_element(s[k], "td"@),
        is_child(s, p, k),
        is_element(s[p], "script"@) || is_element(s[p], "style"@),
        is_child(s, t, p),
        is_text(s[t]),
    ensures
        cell_text(with_text(s, t, x), k) == cell_text(s, k),
        forall|u: int| #[trigger]
            is_child(s, u, k) && is_text(s[u]) ==> own_text(s, k, u + 1) == own_text(s, k, u)
                + text_of(s[u]),
{
    lemma_own_text_frame(s, k, t, x, s.len() as int);
    assert forall|u: int| #[trigger] is_child(s, u, k) && is_text(s[u]) implies own_text(
        s,
        k,
        u + 1,
    ) == own_text(s, k, u) + text_of(s[u]) by {
        reveal_strlit("td");
        reveal_strlit("script");
        reveal_strlit("style");
        assert("td"@ != "script"@ && "td"@ != "style"@) by {
            assert("td"@[1] != "script"@[1]);
            assert("td"@.len() != "style"@.len());
        }
        assert(shows_text(s[k]));
    }
}

proof fn lemma_no_table_upto(s: Seq<NodeView>, hi: int)
    requires
        hi <= s.len(),
        forall|c: int| 0 <= c < s.len() ==> !is_target_table(#[trigger] s[c]),
    ensures
        headers_upto(s, hi).len() == 0,
        rows_upto(s, hi).len() == 0,
    decreases hi,
{
    if hi > 0 {
        lemma_no_table_upto(s, hi - 1);
        assert(!is_header_cell(s, hi - 1));
        assert(!is_table_row(s, hi - 1));
    }
}

/// A document without the target table has no header cells and no rows.
pub proof fn lemma_no_table_empty(s: Seq<NodeView>)
    requires
        forall|c: int| 0 <= c < s.len() ==> !is_target_table(#[trigger] s[c]),
    ensures
        header_of(s).len() == 0,
        rows_of(s).len() == 0,
{
    lemma_no_table_upto(s, s.len() as int);
}

proof fn lemma_rows_upto_filled(s: Seq<NodeView>, hi: int)
    ensures
        forall|r: int| 0 <= r < rows_upto(s, hi).len() ==> #[trigger] rows_upto(s, hi)[r].len() > 0,
    decreases hi,
{
    if hi > 0 {
        lemma_rows_upto_filled(s, hi - 1);
        let prev = rows_upto(s, hi - 1);
        assert forall|r: int| 0 <= r < rows_upto(s, hi).len() implies #[trigger] rows_upto(
            s,
            hi,
        )[r].len() > 0 by {
            if r < prev.len() {
                assert(rows_upto(s, hi)[r] == prev[r]);
            }
        }
    }
}

/// Every data row holds at least one cell: a row without a `td` child
/// leaves no entry.
pub proof fn lemma_rows_filled(s: Seq<NodeView>)
    ensures
        forall|r: int| 0 <= r < rows_of(s).len() ==> #[trigger] rows_of(s)[r].len() > 0,
{
    lemma_rows_upto_filled(s, s.len() as int);
}

/// Each cell of each data row is single spaced.
pub proof fn lemma_cells_single_spaced(s: Seq<NodeView>, k: int)
    ensures
        single_spaced(cell_text(s, k)),
{
    lemma_collapsed_single_spaced(own_text(s, k, s.len() as int));
}

} // verus!
