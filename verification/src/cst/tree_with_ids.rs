use super::{
    id_order::{has_id, ids_before, ids_increasing},
    view::{views, CstKindView, CstView},
    Cst, CstKind, Id,
};
use crate::position::Offset;
use vstd::prelude::*;

verus! {

impl CstView {
    /// This node and all nodes below it, in source order (every node comes
    /// before its children).
    pub open spec fn nodes(self) -> Seq<CstView>
        decreases self,
    {
        seq![self] + match self.kind {
            CstKindView::Comment { octothorpe, .. } => octothorpe.nodes(),
            CstKindView::TrailingWhitespace { child, whitespace, .. } => child.nodes() + nodes_seq(whitespace),
            CstKindView::OpeningText { opening_single_quotes, opening_double_quote, .. } => nodes_seq(opening_single_quotes) + opening_double_quote.nodes(),
            CstKindView::ClosingText { closing_double_quote, closing_single_quotes, .. } => closing_double_quote.nodes() + nodes_seq(closing_single_quotes),
            CstKindView::Text { opening, parts, closing, .. } => opening.nodes() + nodes_seq(parts) + closing.nodes(),
            CstKindView::TextInterpolation { opening_curly_braces, expression, closing_curly_braces, .. } => nodes_seq(opening_curly_braces) + expression.nodes() + nodes_seq(closing_curly_braces),
            CstKindView::BinaryBar { left, bar, right, .. } => left.nodes() + bar.nodes() + right.nodes(),
            CstKindView::Parenthesized { opening_parenthesis, inner, closing_parenthesis, .. } => opening_parenthesis.nodes() + inner.nodes() + closing_parenthesis.nodes(),
            CstKindView::Call { receiver, arguments, .. } => receiver.nodes() + nodes_seq(arguments),
            CstKindView::List { opening_parenthesis, items, closing_parenthesis, .. } => opening_parenthesis.nodes() + nodes_seq(items) + closing_parenthesis.nodes(),
            CstKindView::ListItem { value, comma, .. } => value.nodes() + (match comma { Some(comma) => comma.nodes(), None => Seq::empty() }),
            CstKindView::Struct { opening_bracket, fields, closing_bracket, .. } => opening_bracket.nodes() + nodes_seq(fields) + closing_bracket.nodes(),
            CstKindView::StructField { key_and_colon, value, comma, .. } => (match key_and_colon { Some(key_and_colon) => key_and_colon.0.nodes() + key_and_colon.1.nodes(), None => Seq::empty() }) + value.nodes() + (match comma { Some(comma) => comma.nodes(), None => Seq::empty() }),
            CstKindView::StructAccess { struct_, dot, key, .. } => struct_.nodes() + dot.nodes() + key.nodes(),
            CstKindView::Match { expression, percent, cases, .. } => expression.nodes() + percent.nodes() + nodes_seq(cases),
            CstKindView::MatchCase { pattern, arrow, body, .. } => pattern.nodes() + arrow.nodes() + nodes_seq(body),
            CstKindView::Function { opening_curly_brace, parameters_and_arrow, body, closing_curly_brace, .. } => opening_curly_brace.nodes() + (match parameters_and_arrow { Some(parameters_and_arrow) => nodes_seq(parameters_and_arrow.0) + parameters_and_arrow.1.nodes(), None => Seq::empty() }) + nodes_seq(body) + closing_curly_brace.nodes(),
            CstKindView::Assignment { left, assignment_sign, body, .. } => left.nodes() + assignment_sign.nodes() + nodes_seq(body),
            _ => Seq::empty(),
        }
    }
}

/// All nodes of a sequence of nodes and below them, in source order.
pub open spec fn nodes_seq(csts: Seq<CstView>) -> Seq<CstView>
    decreases csts,
{
    if csts.len() == 0 {
        Seq::empty()
    } else {
        nodes_seq(csts.drop_last()) + csts.last().nodes()
    }
}

/// The value of the node at an index of a sequence of nodes.
pub proof fn lemma_views_index(csts: Seq<Cst>, k: int)
    requires
        0 <= k < csts.len(),
    ensures
        views(csts).len() == csts.len(),
        views(csts)[k] == csts[k]@,
    decreases csts.len(),
{
    if k < csts.len() - 1 {
        lemma_views_index(csts.drop_last(), k);
    } else {
        lemma_views_len(csts.drop_last());
    }
}

pub proof fn lemma_views_len(csts: Seq<Cst>)
    ensures
        views(csts).len() == csts.len(),
    decreases csts.len(),
{
    if csts.len() > 0 {
        lemma_views_len(csts.drop_last());
    }
}

/// The nodes below an element of a sequence are among the nodes of the
/// sequence.
pub proof fn lemma_nodes_seq_contains(csts: Seq<CstView>, k: int, node: CstView)
    requires
        0 <= k < csts.len(),
        csts[k].nodes().contains(node),
    ensures
        nodes_seq(csts).contains(node),
    decreases csts.len(),
{
    crate::seq_facts::lemma_contains_concat(nodes_seq(csts.drop_last()), csts.last().nodes(), node);
    if k < csts.len() - 1 {
        lemma_nodes_seq_contains(csts.drop_last(), k, node);
    }
}

/// Whether a node covers an offset: its span contains the offset, or it ends
/// at the offset and is an identifier, a symbol, an integer or a comment
/// (these also cover the position right after them).
pub open spec fn covers(node: CstView, offset: Offset) -> bool {
    ||| node.data.span.start.0 <= offset.0 < node.data.span.end.0
    ||| (node.data.span.end.0 == offset.0 && is_end_inclusive(node.kind))
}

/// The kinds of nodes that also cover the position right after them.
pub open spec fn is_end_inclusive(kind: CstKindView) -> bool {
    kind is Comment || kind is Identifier || kind is Symbol || kind is Int
}

/// The first of two search results that found a node.
pub open spec fn or_found(first: Option<CstView>, second: Option<CstView>) -> Option<CstView> {
    if first is Some {
        first
    } else {
        second
    }
}

/// How many nodes, from the first on, start at or before an offset.
pub open spec fn leading_count(csts: Seq<CstView>, offset: Offset) -> nat
    decreases csts.len(),
{
    if csts.len() > 0 && csts[0].data.span.start.0 <= offset.0 {
        1 + leading_count(csts.drop_first(), offset)
    } else {
        0
    }
}

/// What the search by offset finds in a node: what it finds in a child (see
/// `found_at_child`), and otherwise the node itself if it covers the offset.
pub open spec fn found_at(node: CstView, offset: Offset) -> Option<CstView>
    decreases node, 2nat,
{
    let inner = found_at_child(node, offset);
    if inner is Some {
        inner
    } else if covers(node, offset) {
        Some(node)
    } else {
        None
    }
}

/// What the search by offset finds in the children of a node: what it finds
/// in the first child, in the order in which it takes them, where it finds
/// something. In a text, only an interpolation can hold the result, and the
/// interpolation itself is not one.
pub open spec fn found_at_child(node: CstView, offset: Offset) -> Option<CstView>
    decreases node, 1nat,
{
    match node.kind {
        CstKindView::Comment { octothorpe, .. } => found_at(*octothorpe, offset),
        CstKindView::TrailingWhitespace { child, .. } => found_at(*child, offset),
        CstKindView::TextInterpolation { expression, .. } => found_at(*expression, offset),
        CstKindView::BinaryBar { left, bar, right } => or_found(
            found_at(*left, offset),
            or_found(found_at(*bar, offset), found_at(*right, offset)),
        ),
        CstKindView::Parenthesized { inner, .. } => found_at(*inner, offset),
        CstKindView::Call { receiver, arguments } => or_found(
            found_at(*receiver, offset),
            found_in(arguments, offset),
        ),
        CstKindView::List { opening_parenthesis, items, closing_parenthesis } => or_found(
            found_at(*opening_parenthesis, offset),
            or_found(found_in(items, offset), found_at(*closing_parenthesis, offset)),
        ),
        CstKindView::ListItem { value, comma } => or_found(
            found_at(*value, offset),
            match comma {
                Some(comma) => found_at(*comma, offset),
                None => None,
            },
        ),
        CstKindView::Struct { opening_bracket, fields, closing_bracket } => or_found(
            found_at(*opening_bracket, offset),
            or_found(found_in(fields, offset), found_at(*closing_bracket, offset)),
        ),
        CstKindView::StructField { key_and_colon, value, comma } => or_found(
            match key_and_colon {
                Some(key_and_colon) => or_found(
                    found_at(key_and_colon.0, offset),
                    found_at(key_and_colon.1, offset),
                ),
                None => None,
            },
            or_found(
                found_at(*value, offset),
                match comma {
                    Some(comma) => found_at(*comma, offset),
                    None => None,
                },
            ),
        ),
        CstKindView::StructAccess { struct_, dot, key } => or_found(
            found_at(*struct_, offset),
            or_found(found_at(*dot, offset), found_at(*key, offset)),
        ),
        CstKindView::Match { expression, percent, cases } => or_found(
            found_at(*expression, offset),
            or_found(found_at(*percent, offset), found_in(cases, offset)),
        ),
        CstKindView::MatchCase { pattern, arrow, body } => or_found(
            found_at(*pattern, offset),
            or_found(found_at(*arrow, offset), found_in(body, offset)),
        ),
        CstKindView::Function {
            opening_curly_brace,
            parameters_and_arrow,
            body,
            closing_curly_brace,
        } => or_found(
            found_at(*opening_curly_brace, offset),
            or_found(
                match parameters_and_arrow {
                    Some(parameters_and_arrow) => or_found(
                        found_in(parameters_and_arrow.0, offset),
                        found_at(*parameters_and_arrow.1, offset),
                    ),
                    None => None,
                },
                or_found(found_in(body, offset), found_at(*closing_curly_brace, offset)),
            ),
        ),
        CstKindView::Assignment { left, assignment_sign, body } => or_found(
            found_at(*left, offset),
            or_found(found_at(*assignment_sign, offset), found_in(body, offset)),
        ),
        CstKindView::Text { parts, .. } => {
            let count = leading_count(parts, offset);
            if 0 < count <= parts.len() && parts[count - 1].kind is TextInterpolation {
                match found_at(parts[count - 1], offset) {
                    Some(child) => if child.kind is TextInterpolation {
                        None
                    } else {
                        Some(child)
                    },
                    None => None,
                }
            } else {
                None
            }
        },
        _ => None,
    }
}

/// What the search by offset finds among nodes ordered by their spans: what
/// it finds in the last of the leading nodes that start at or before the
/// offset.
pub open spec fn found_in(csts: Seq<CstView>, offset: Offset) -> Option<CstView>
    decreases csts, 0nat,
{
    let count = leading_count(csts, offset);
    if 0 < count <= csts.len() {
        found_at(csts[count - 1], offset)
    } else {
        None
    }
}

/// Whether nodes have non-empty spans that follow each other in order.
pub open spec fn ordered_spans(csts: Seq<CstView>) -> bool {
    &&& forall|i: int| 0 <= i < csts.len() ==> (#[trigger] csts[i]).data.span.start.0
        < csts[i].data.span.end.0
    &&& forall|i: int, j: int|
        0 <= i < j < csts.len() ==> (#[trigger] csts[i]).data.span.end.0
            <= (#[trigger] csts[j]).data.span.start.0
}

proof fn lemma_leading_count_bounds(csts: Seq<CstView>, offset: Offset)
    ensures
        leading_count(csts, offset) <= csts.len(),
        forall|j: int|
            0 <= j < leading_count(csts, offset) ==> (#[trigger] csts[j]).data.span.start.0
                <= offset.0,
        leading_count(csts, offset) < csts.len() ==> csts[leading_count(
            csts,
            offset,
        ) as int].data.span.start.0 > offset.0,
    decreases csts.len(),
{
    if csts.len() > 0 && csts[0].data.span.start.0 <= offset.0 {
        let rest = csts.drop_first();
        lemma_leading_count_bounds(rest, offset);
        assert forall|j: int| 0 <= j < leading_count(csts, offset) implies (
        #[trigger] csts[j]).data.span.start.0 <= offset.0 by {
            if j > 0 {
                assert(csts[j] == rest[j - 1]);
            }
        }
        if leading_count(csts, offset) < csts.len() {
            assert(csts[leading_count(csts, offset) as int] == rest[leading_count(rest, offset) as int]);
        }
    }
}

/// Search by offset among nodes with spans in order finds what a node that
/// covers the offset finds, and finds something, where one of them covers it.
pub proof fn lemma_found_in_covering(csts: Seq<CstView>, offset: Offset, k: int)
    requires
        ordered_spans(csts),
        0 <= k < csts.len(),
        covers(csts[k], offset),
    ensures
        exists|j: int|
            0 <= j < csts.len() && covers(#[trigger] csts[j], offset) && found_at(csts[j], offset)
                is Some && found_in(csts, offset) == found_at(csts[j], offset),
{
    lemma_leading_count_bounds(csts, offset);
    let count = leading_count(csts, offset);
    assert(csts[k].data.span.start.0 <= offset.0);
    if count <= k {
        assert(csts[count as int].data.span.start.0 <= csts[k].data.span.start.0) by {
            if count < k {
                assert(csts[count as int].data.span.end.0 <= csts[k].data.span.start.0);
            }
        }
    }
    let m = count - 1;
    assert(csts[m].data.span.start.0 <= offset.0);
    if m > k {
        assert(csts[k].data.span.end.0 <= csts[m].data.span.start.0);
        assert(csts[m].data.span.start.0 < csts[m].data.span.end.0);
    }
    assert(covers(csts[m], offset));
    assert(found_in(csts, offset) == found_at(csts[m], offset));
}

/// Search by offset goes into a call's arguments: where the receiver holds
/// nothing at the offset and an argument covers it, the arguments having
/// spans in order, the call gives what an argument that covers the offset
/// gives, which is a node, so not the call itself.
pub proof fn lemma_call_argument_found(call: CstView, offset: Offset, k: int)
    requires
        call.kind matches CstKindView::Call { receiver, arguments } && {
            &&& found_at(*receiver, offset) is None
            &&& ordered_spans(arguments)
            &&& 0 <= k < arguments.len()
            &&& covers(arguments[k], offset)
        },
    ensures
        call.kind matches CstKindView::Call { receiver, arguments } && exists|j: int|
            0 <= j < arguments.len() && covers(#[trigger] arguments[j], offset) && found_at(
                arguments[j],
                offset,
            ) is Some && found_at(call, offset) == found_at(arguments[j], offset),
{
    if let CstKindView::Call { receiver, arguments } = call.kind {
        lemma_found_in_covering(arguments, offset, k);
        let j = choose|j: int|
            0 <= j < arguments.len() && covers(#[trigger] arguments[j], offset) && found_at(
                arguments[j],
                offset,
            ) is Some && found_in(arguments, offset) == found_at(arguments[j], offset);
        assert(found_at_child(call, offset) == found_at(arguments[j], offset));
    }
}

/// Search by offset goes into a list's items: where the opening parenthesis
/// holds nothing at the offset and an item covers it, the items having spans
/// in order, the list gives what an item that covers the offset gives.
pub proof fn lemma_list_item_found(list: CstView, offset: Offset, k: int)
    requires
        list.kind matches CstKindView::List { opening_parenthesis, items, .. } && {
            &&& found_at(*opening_parenthesis, offset) is None
            &&& ordered_spans(items)
            &&& 0 <= k < items.len()
            &&& covers(items[k], offset)
        },
    ensures
        list.kind matches CstKindView::List { items, .. } && exists|j: int|
            0 <= j < items.len() && covers(#[trigger] items[j], offset) && found_at(
                items[j],
                offset,
            ) is Some && found_at(list, offset) == found_at(items[j], offset),
{
    if let CstKindView::List { opening_parenthesis, items, closing_parenthesis } = list.kind {
        lemma_found_in_covering(items, offset, k);
        let j = choose|j: int|
            0 <= j < items.len() && covers(#[trigger] items[j], offset) && found_at(
                items[j],
                offset,
            ) is Some && found_in(items, offset) == found_at(items[j], offset);
        assert(found_at_child(list, offset) == found_at(items[j], offset));
    }
}

/// Search by offset goes into a struct's fields: where the opening bracket
/// holds nothing at the offset and a field covers it, the fields having
/// spans in order, the struct gives what a field that covers the offset
/// gives.
pub proof fn lemma_struct_field_found(node: CstView, offset: Offset, k: int)
    requires
        node.kind matches CstKindView::Struct { opening_bracket, fields, .. } && {
            &&& found_at(*opening_bracket, offset) is None
            &&& ordered_spans(fields)
            &&& 0 <= k < fields.len()
            &&& covers(fields[k], offset)
        },
    ensures
        node.kind matches CstKindView::Struct { fields, .. } && exists|j: int|
            0 <= j < fields.len() && covers(#[trigger] fields[j], offset) && found_at(
                fields[j],
                offset,
            ) is Some && found_at(node, offset) == found_at(fields[j], offset),
{
    if let CstKindView::Struct { opening_bracket, fields, closing_bracket } = node.kind {
        lemma_found_in_covering(fields, offset, k);
        let j = choose|j: int|
            0 <= j < fields.len() && covers(#[trigger] fields[j], offset) && found_at(
                fields[j],
                offset,
            ) is Some && found_in(fields, offset) == found_at(fields[j], offset);
        assert(found_at_child(node, offset) == found_at(fields[j], offset));
    }
}

/// A node that covers an offset is found there: the search gives the node
/// or a node below it.
pub proof fn lemma_covering_found(node: CstView, offset: Offset)
    requires
        covers(node, offset),
    ensures
        found_at(node, offset) is Some,
{
}

/// The value of a found node, if one was found.
pub open spec fn found_view(result: Option<&Cst>) -> Option<CstView> {
    match result {
        Some(node) => Some(node@),
        None => None,
    }
}

proof fn lemma_leading_count(csts: Seq<CstView>, offset: Offset, i: int)
    requires
        0 <= i <= csts.len(),
        forall|j: int| 0 <= j < i ==> (#[trigger] csts[j]).data.span.start.0 <= offset.0,
        i == csts.len() || csts[i].data.span.start.0 > offset.0,
    ensures
        leading_count(csts, offset) == i,
    decreases i,
{
    if i > 0 {
        assert forall|j: int| 0 <= j < i - 1 implies (#[trigger] csts.drop_first()[j]).data.span.start.0
            <= offset.0 by {
            assert(csts.drop_first()[j] == csts[j + 1]);
        }
        lemma_leading_count(csts.drop_first(), offset, i - 1);
    }
}

/// How many nodes, from the first on, start at or before an offset.
fn leading_starting_at_most(csts: &Vec<Cst>, offset: Offset) -> (result: usize)
    ensures
        result == leading_count(views(csts@), offset),
        result <= csts.len(),
{
    let mut i: usize = 0;
    proof {
        lemma_views_len(csts@);
    }
    while i < csts.len() && csts[i].data.span.start.0 <= offset.0
        invariant
            i <= csts.len(),
            views(csts@).len() == csts.len(),
            forall|j: int| 0 <= j < i ==> (#[trigger] views(csts@)[j]).data.span.start.0 <= offset.0,
        decreases csts.len() - i,
    {
        proof {
            lemma_views_index(csts@, i as int);
        }
        i = i + 1;
    }
    proof {
        if i < csts.len() {
            lemma_views_index(csts@, i as int);
        }
        lemma_leading_count(views(csts@), offset, i as int);
    }
    i
}

/// Searches keys for the last one that is at most `target`: the result is the
/// number of leading keys that are at most `target`, minus one, or `None` if
/// the first key is already greater. This is only meaningful if the keys are
/// sorted.
fn last_at_most(keys: &Vec<usize>, target: usize) -> (result: Option<usize>)
    ensures
        result matches Some(k) ==> k < keys.len() && keys[k as int] <= target,
        (forall|i: int, j: int| 0 <= i <= j < keys.len() ==> keys[i] <= keys[j]) ==> ({
            let count = match result {
                Some(k) => k + 1,
                None => 0,
            };
            &&& forall|i: int| 0 <= i < count ==> keys[i] <= target
            &&& forall|i: int| count <= i < keys.len() ==> keys[i] > target
        }),
{
    let mut low: usize = 0;
    let mut high: usize = keys.len();
    while low < high
        invariant
            low <= high <= keys.len(),
            low > 0 ==> keys[low - 1] <= target,
            (forall|i: int, j: int| 0 <= i <= j < keys.len() ==> keys[i] <= keys[j]) ==> ({
                &&& forall|i: int| 0 <= i < low ==> keys[i] <= target
                &&& forall|i: int| high <= i < keys.len() ==> keys[i] > target
            }),
        decreases high - low,
    {
        let middle = low + (high - low) / 2;
        if keys[middle] <= target {
            low = middle + 1;
        } else {
            high = middle;
        }
    }
    if low == 0 {
        None
    } else {
        Some(low - 1)
    }
}

fn first_ids(csts: &Vec<Cst>) -> (result: Vec<usize>)
    ensures
        result.len() == csts.len(),
        forall|i: int| 0 <= i < csts.len() ==> result[i] == csts[i].data.id.0,
{
    let mut result: Vec<usize> = Vec::new();
    let mut i: usize = 0;
    while i < csts.len()
        invariant
            i <= csts.len(),
            result.len() == i,
            forall|j: int| 0 <= j < i ==> result[j] == csts[j].data.id.0,
        decreases csts.len() - i,
    {
        result.push(csts[i].data.id.0);
        i = i + 1;
    }
    result
}

broadcast use {crate::seq_facts::lemma_contains_concat_auto, super::id_order::group_id_order};

/// A node comes first among its nodes, so with growing IDs its own ID is the
/// smallest of them.
proof fn lemma_root_id_first(node: CstView)
    ensures
        node.nodes().len() > 0,
        node.nodes()[0] == node,
        ids_increasing(node.nodes()) ==> forall|i: int|
            0 < i < node.nodes().len() ==> node.data.id.0 < #[trigger] node.nodes()[i].data.id.0,
{
    assert(node.nodes()[0] == node);
}

/// A node with an ID among the nodes of a sequence lies below one of its
/// elements.
proof fn lemma_nodes_seq_member(children: Seq<CstView>, id: usize) -> (j: int)
    requires
        has_id(nodes_seq(children), id),
    ensures
        0 <= j < children.len(),
        has_id(children[j].nodes(), id),
    decreases children.len(),
{
    let rest = children.drop_last();
    if has_id(children.last().nodes(), id) {
        children.len() - 1
    } else {
        let j = lemma_nodes_seq_member(rest, id);
        assert(children[j] == rest[j]);
        j
    }
}

/// With growing IDs among the nodes of a sequence, the IDs grow below each
/// element, and all IDs below an element come before those below later
/// elements.
#[verifier::spinoff_prover]
proof fn lemma_nodes_seq_order(children: Seq<CstView>)
    requires
        ids_increasing(nodes_seq(children)),
    ensures
        forall|j: int| 0 <= j < children.len() ==> ids_increasing(#[trigger] children[j].nodes()),
        forall|j: int, k: int|
            0 <= j < k < children.len() ==> ids_before(
                #[trigger] children[j].nodes(),
                #[trigger] children[k].nodes(),
            ),
    decreases children.len(),
{
    if children.len() > 0 {
        let rest = children.drop_last();
        let last = children.last();
        assert(nodes_seq(children) == nodes_seq(rest) + last.nodes());
        lemma_nodes_seq_order(rest);
        assert forall|j: int| 0 <= j < children.len() implies ids_increasing(
            #[trigger] children[j].nodes(),
        ) by {
            if j < children.len() - 1 {
                assert(children[j] == rest[j]);
            }
        }
        assert forall|j: int, k: int| 0 <= j < k < children.len() implies ids_before(
            #[trigger] children[j].nodes(),
            #[trigger] children[k].nodes(),
        ) by {
            assert(children[j] == rest[j]);
            if k < children.len() - 1 {
                assert(children[k] == rest[k]);
            } else {
                assert forall|a: int, b: int|
                    0 <= a < children[j].nodes().len() && 0 <= b < last.nodes().len() implies #[trigger] children[j].nodes()[a].data.id.0
                    < #[trigger] last.nodes()[b].data.id.0 by {
                    lemma_nodes_seq_contains(rest, j, children[j].nodes()[a]);
                    let c = choose|c: int|
                        0 <= c < nodes_seq(rest).len() && nodes_seq(rest)[c] == children[j].nodes()[a];
                    assert(nodes_seq(rest)[c].data.id.0 < last.nodes()[b].data.id.0);
                }
            }
        }
    }
}

/// With growing IDs among the nodes of a sequence, an ID among them lies below
/// the last element whose own ID is at most that ID, and the elements' own IDs
/// grow.
proof fn lemma_child_for_id(children: Seq<CstView>, id: usize) -> (j: int)
    requires
        ids_increasing(nodes_seq(children)),
        has_id(nodes_seq(children), id),
    ensures
        0 <= j < children.len(),
        has_id(children[j].nodes(), id),
        ids_increasing(children[j].nodes()),
        children[j].data.id.0 <= id,
        forall|k: int| j < k < children.len() ==> #[trigger] children[k].data.id.0 > id,
        forall|a: int, b: int|
            0 <= a <= b < children.len() ==> #[trigger] children[a].data.id.0
                <= #[trigger] children[b].data.id.0,
{
    lemma_nodes_seq_order(children);
    let j = lemma_nodes_seq_member(children, id);
    let i = choose|i: int| 0 <= i < children[j].nodes().len() && #[trigger] children[j].nodes()[i].data.id.0 == id;
    lemma_root_id_first(children[j]);
    assert forall|k: int| j < k < children.len() implies #[trigger] children[k].data.id.0 > id by {
        lemma_root_id_first(children[k]);
        assert(ids_before(children[j].nodes(), children[k].nodes()));
        assert(children[j].nodes()[i].data.id.0 < children[k].nodes()[0].data.id.0);
    }
    assert forall|a: int, b: int|
        0 <= a <= b < children.len() implies #[trigger] children[a].data.id.0
        <= #[trigger] children[b].data.id.0 by {
        if a < b {
            lemma_root_id_first(children[a]);
            lemma_root_id_first(children[b]);
            assert(ids_before(children[a].nodes(), children[b].nodes()));
            assert(children[a].nodes()[0].data.id.0 < children[b].nodes()[0].data.id.0);
        }
    }
    j
}

/// Finds the node with the given ID in the node's tree.
#[verifier::spinoff_prover]
#[verifier::rlimit(100)]
pub fn find_in_cst(cst: &Cst, id: Id) -> (result: Option<&Cst>)
    ensures
        result matches Some(node) ==> node.data.id == id && cst@.nodes().contains(node@),
        ids_increasing(cst@.nodes()) && has_id(cst@.nodes(), id.0) ==> result is Some,
    decreases cst,
{
    if cst.data.id.0 == id.0 {
        assert(cst@.nodes()[0] == cst@);
        return Some(cst);
    }
    let result: Option<&Cst> = match &cst.kind {
            CstKind::Comment { octothorpe, .. } => {
                let found = find_in_cst(&octothorpe, id);
                if found.is_some() { return found; }
                None
            },
            CstKind::TrailingWhitespace { child, whitespace, .. } => {
                let found = find_in_cst(&child, id);
                if found.is_some() { return found; }
                let found = find_in(whitespace, id);
                if found.is_some() { return found; }
                None
            },
            CstKind::OpeningText { opening_single_quotes, opening_double_quote, .. } => {
                let found = find_in(opening_single_quotes, id);
                if found.is_some() { return found; }
                let found = find_in_cst(&opening_double_quote, id);
                if found.is_some() { return found; }
                None
            },
            CstKind::ClosingText { closing_double_quote, closing_single_quotes, .. } => {
                let found = find_in_cst(&closing_double_quote, id);
                if found.is_some() { return found; }
                let found = find_in(closing_single_quotes, id);
                if found.is_some() { return found; }
                None
            },
            CstKind::Text { opening, parts, closing, .. } => {
                let found = find_in_cst(&opening, id);
                if found.is_some() { return found; }
                let found = find_in(parts, id);
                if found.is_some() { return found; }
                let found = find_in_cst(&closing, id);
                if found.is_some() { return found; }
                None
            },
            CstKind::TextInterpolation { opening_curly_braces, expression, closing_curly_braces, .. } => {
                let found = find_in(opening_curly_braces, id);
                if found.is_some() { return found; }
                let found = find_in_cst(&expression, id);
                if found.is_some() { return found; }
                let found = find_in(closing_curly_braces, id);
                if found.is_some() { return found; }
                None
            },
            CstKind::BinaryBar { left, bar, right, .. } => {
                let found = find_in_cst(&left, id);
                if found.is_some() { return found; }
                let found = find_in_cst(&bar, id);
                if found.is_some() { return found; }
                let found = find_in_cst(&right, id);
                if found.is_some() { return found; }
                None
            },
            CstKind::Parenthesized { opening_parenthesis, inner, closing_parenthesis, .. } => {
                let found = find_in_cst(&opening_parenthesis, id);
                if found.is_some() { return found; }
                let found = find_in_cst(&inner, id);
                if found.is_some() { return found; }
                let found = find_in_cst(&closing_parenthesis, id);
                if found.is_some() { return found; }
                None
            },
            CstKind::Call { receiver, arguments, .. } => {
                let found = find_in_cst(&receiver, id);
                if found.is_some() { return found; }
                let found = find_in(arguments, id);
                if found.is_some() { return found; }
                None
            },
            CstKind::List { opening_parenthesis, items, closing_parenthesis, .. } => {
                let found = find_in_cst(&opening_parenthesis, id);
                if found.is_some() { return found; }
                let found = find_in(items, id);
                if found.is_some() { return found; }
                let found = find_in_cst(&closing_parenthesis, id);
                if found.is_some() { return found; }
                None
            },
            CstKind::ListItem { value, comma, .. } => {
                let found = find_in_cst(&value, id);
                if found.is_some() { return found; }
                if let Some(comma) = comma {
                    let found = find_in_cst(&comma, id);
                    if found.is_some() { return found; }
                }
                None
            },
            CstKind::Struct { opening_bracket, fields, closing_bracket, .. } => {
                let found = find_in_cst(&opening_bracket, id);
                if found.is_some() { return found; }
                let found = find_in(fields, id);
                if found.is_some() { return found; }
                let found = find_in_cst(&closing_bracket, id);
                if found.is_some() { return found; }
                None
            },
            CstKind::StructField { key_and_colon, value, comma, .. } => {
                if let Some(key_and_colon) = key_and_colon {
                    let found = find_in_cst(&key_and_colon.0, id);
                    if found.is_some() { return found; }
                    let found = find_in_cst(&key_and_colon.1, id);
                    if found.is_some() { return found; }
                }
                let found = find_in_cst(&value, id);
                if found.is_some() { return found; }
                if let Some(comma) = comma {
                    let found = find_in_cst(&comma, id);
                    if found.is_some() { return found; }
                }
                None
            },
            CstKind::StructAccess { struct_, dot, key, .. } => {
                let found = find_in_cst(&struct_, id);
                if found.is_some() { return found; }
                let found = find_in_cst(&dot, id);
                if found.is_some() { return found; }
                let found = find_in_cst(&key, id);
                if found.is_some() { return found; }
                None
            },
            CstKind::Match { expression, percent, cases, .. } => {
                let found = find_in_cst(&expression, id);
                if found.is_some() { return found; }
                let found = find_in_cst(&percent, id);
                if found.is_some() { return found; }
                let found = find_in(cases, id);
                if found.is_some() { return found; }
                None
            },
            CstKind::MatchCase { pattern, arrow, body, .. } => {
                let found = find_in_cst(&pattern, id);
                if found.is_some() { return found; }
                let found = find_in_cst(&arrow, id);
                if found.is_some() { return found; }
                let found = find_in(body, id);
                if found.is_some() { return found; }
                None
            },
            CstKind::Function { opening_curly_brace, parameters_and_arrow, body, closing_curly_brace, .. } => {
                let found = find_in_cst(&opening_curly_brace, id);
                if found.is_some() { return found; }
                if let Some(parameters_and_arrow) = parameters_and_arrow {
                    let found = find_in(&parameters_and_arrow.0, id);
                    if found.is_some() { return found; }
                    let found = find_in_cst(&parameters_and_arrow.1, id);
                    if found.is_some() { return found; }
                }
                let found = find_in(body, id);
                if found.is_some() { return found; }
                let found = find_in_cst(&closing_curly_brace, id);
                if found.is_some() { return found; }
                None
            },
            CstKind::Assignment { left, assignment_sign, body, .. } => {
                let found = find_in_cst(&left, id);
                if found.is_some() { return found; }
                let found = find_in_cst(&assignment_sign, id);
                if found.is_some() { return found; }
                let found = find_in(body, id);
                if found.is_some() { return found; }
                None
            },
            _ => None,
    };
    result
}

/// Finds the node with the given ID among the trees of a sequence of nodes
/// that are ordered by their IDs: only the last tree whose root ID is at most
/// the given ID is searched.
pub fn find_in(csts: &Vec<Cst>, id: Id) -> (result: Option<&Cst>)
    ensures
        result matches Some(node) ==> node.data.id == id && nodes_seq(views(csts@)).contains(
            node@,
        ),
        ids_increasing(nodes_seq(views(csts@))) && has_id(nodes_seq(views(csts@)), id.0)
            ==> result is Some,
    decreases csts,
{
    let keys = first_ids(csts);
    let ghost children = views(csts@);
    proof {
        lemma_views_len(csts@);
        assert forall|i: int| 0 <= i < csts.len() implies #[trigger] keys[i] == children[i].data.id.0 by {
            lemma_views_index(csts@, i);
        }
    }
    let ghost chosen: int = if ids_increasing(nodes_seq(children)) && has_id(nodes_seq(children), id.0) {
        lemma_child_for_id(children, id.0)
    } else {
        0
    };
    match last_at_most(&keys, id.0) {
        Some(index) => {
            assert(decreases_to!(csts => csts@[index as int]));
            proof {
                lemma_views_index(csts@, index as int);
                if ids_increasing(nodes_seq(children)) && has_id(nodes_seq(children), id.0) {
                    assert(keys[chosen] <= id.0);
                    assert(index as int == chosen);
                }
            }
            let found = find_in_cst(&csts[index], id);
            proof {
                if let Some(node) = found {
                    lemma_views_index(csts@, index as int);
                    lemma_nodes_seq_contains(views(csts@), index as int, node@);
                }
            }
            found
        },
        None => {
            proof {
                if ids_increasing(nodes_seq(children)) && has_id(nodes_seq(children), id.0) {
                    assert(keys[chosen] <= id.0);
                }
            }
            None
        },
    }
}

/// What the search by offset finds in the children of a node.
#[verifier::spinoff_prover]
#[verifier::rlimit(100)]
fn find_by_offset_below(cst: &Cst, offset: Offset) -> (result: Option<&Cst>)
    ensures
        found_view(result) == found_at_child(cst@, offset),
        result matches Some(node) ==> covers(node@, offset) && cst@.nodes().contains(node@),
    decreases cst, 0nat,
{
    match &cst.kind {
        CstKind::Comment { octothorpe, .. } => find_by_offset_in_cst(octothorpe, offset),
        CstKind::TrailingWhitespace { child, .. } => find_by_offset_in_cst(child, offset),
        CstKind::TextInterpolation { expression, .. } => find_by_offset_in_cst(expression, offset),
        CstKind::BinaryBar { left, bar, right } => match find_by_offset_in_cst(left, offset) {
 Some(found) => Some(found),
 None => match find_by_offset_in_cst(bar, offset) {
 Some(found) => Some(found),
 None => find_by_offset_in_cst(right, offset),
 },
 },
        CstKind::Parenthesized { inner, .. } => find_by_offset_in_cst(inner, offset),
        CstKind::Call { receiver, arguments } => match find_by_offset_in_cst(receiver, offset) {
 Some(found) => Some(found),
 None => find_by_offset_in(arguments, offset),
 },
        CstKind::List { opening_parenthesis, items, closing_parenthesis } => match find_by_offset_in_cst(opening_parenthesis, offset) {
 Some(found) => Some(found),
 None => match find_by_offset_in(items, offset) {
 Some(found) => Some(found),
 None => find_by_offset_in_cst(closing_parenthesis, offset),
 },
 },
        CstKind::ListItem { value, comma } => match find_by_offset_in_cst(value, offset) {
 Some(found) => Some(found),
 None => match comma { Some(node) => find_by_offset_in_cst(node, offset), None => None },
 },
        CstKind::Struct { opening_bracket, fields, closing_bracket } => match find_by_offset_in_cst(opening_bracket, offset) {
 Some(found) => Some(found),
 None => match find_by_offset_in(fields, offset) {
 Some(found) => Some(found),
 None => find_by_offset_in_cst(closing_bracket, offset),
 },
 },
        CstKind::StructField { key_and_colon, value, comma } => match match key_and_colon { Some(key_and_colon) => match find_by_offset_in_cst(&key_and_colon.0, offset) {
 Some(found) => Some(found),
 None => find_by_offset_in_cst(&key_and_colon.1, offset),
 }, None => None } {
 Some(found) => Some(found),
 None => match find_by_offset_in_cst(value, offset) {
 Some(found) => Some(found),
 None => match comma { Some(node) => find_by_offset_in_cst(node, offset), None => None },
 },
 },
        CstKind::StructAccess { struct_, dot, key } => match find_by_offset_in_cst(struct_, offset) {
 Some(found) => Some(found),
 None => match find_by_offset_in_cst(dot, offset) {
 Some(found) => Some(found),
 None => find_by_offset_in_cst(key, offset),
 },
 },
        CstKind::Match { expression, percent, cases } => match find_by_offset_in_cst(expression, offset) {
 Some(found) => Some(found),
 None => match find_by_offset_in_cst(percent, offset) {
 Some(found) => Some(found),
 None => find_by_offset_in(cases, offset),
 },
 },
        CstKind::MatchCase { pattern, arrow, body } => match find_by_offset_in_cst(pattern, offset) {
 Some(found) => Some(found),
 None => match find_by_offset_in_cst(arrow, offset) {
 Some(found) => Some(found),
 None => find_by_offset_in(body, offset),
 },
 },
        CstKind::Function { opening_curly_brace, parameters_and_arrow, body, closing_curly_brace } => match find_by_offset_in_cst(opening_curly_brace, offset) {
 Some(found) => Some(found),
 None => match match parameters_and_arrow { Some(parameters_and_arrow) => match find_by_offset_in(&parameters_and_arrow.0, offset) {
 Some(found) => Some(found),
 None => find_by_offset_in_cst(&parameters_and_arrow.1, offset),
 }, None => None } {
 Some(found) => Some(found),
 None => match find_by_offset_in(body, offset) {
 Some(found) => Some(found),
 None => find_by_offset_in_cst(closing_curly_brace, offset),
 },
 },
 },
        CstKind::Assignment { left, assignment_sign, body } => match find_by_offset_in_cst(left, offset) {
 Some(found) => Some(found),
 None => match find_by_offset_in_cst(assignment_sign, offset) {
 Some(found) => Some(found),
 None => find_by_offset_in(body, offset),
 },
 },
        CstKind::Text { parts, .. } => {
            let count = leading_starting_at_most(parts, offset);
            if count > 0 {
                let index = count - 1;
                let part = &parts[index];
                proof {
                    lemma_views_index(parts@, index as int);
                }
                if part.kind.is_text_interpolation() {
                    assert(decreases_to!(cst => parts@[index as int]));
                    match find_by_offset_in_cst(part, offset) {
                        Some(child) => {
                            if child.kind.is_text_interpolation() {
                                None
                            } else {
                                proof {
                                    lemma_nodes_seq_contains(views(parts@), index as int, child@);
                                }
                                Some(child)
                            }
                        },
                        None => None,
                    }
                } else {
                    None
                }
            } else {
                None
            }
        },
        _ => None,
    }
}

/// Finds the innermost node that covers an offset, preferring the first child
/// that covers it.
#[verifier::spinoff_prover]
pub fn find_by_offset_in_cst(cst: &Cst, offset: Offset) -> (result: Option<&Cst>)
    ensures
        found_view(result) == found_at(cst@, offset),
        result matches Some(node) ==> covers(node@, offset) && cst@.nodes().contains(node@),
        covers(cst@, offset) ==> result is Some,
    decreases cst, 1nat,
{
    match find_by_offset_below(cst, offset) {
        Some(found) => Some(found),
        None => {
            let is_end_inclusive = match &cst.kind {
                CstKind::Comment { .. } | CstKind::Identifier(_) | CstKind::Symbol(_)
                | CstKind::Int { .. } => true,
                _ => false,
            };
            if (cst.data.span.start.0 <= offset.0 && offset.0 < cst.data.span.end.0) || (
            is_end_inclusive && cst.data.span.end.0 == offset.0) {
                assert(cst@.nodes()[0] == cst@);
                Some(cst)
            } else {
                None
            }
        },
    }
}

/// Finds the innermost node that covers an offset among the trees of a
/// sequence of nodes that are ordered by their spans: only the last tree that
/// starts at or before the offset is searched.
pub fn find_by_offset_in(csts: &Vec<Cst>, offset: Offset) -> (result: Option<&Cst>)
    ensures
        found_view(result) == found_in(views(csts@), offset),
        result matches Some(node) ==> covers(node@, offset) && nodes_seq(views(csts@)).contains(
            node@,
        ),
    decreases csts, 2nat,
{
    let count = leading_starting_at_most(csts, offset);
    match if count > 0 { Some(count - 1) } else { None } {
        Some(index) => {
            assert(decreases_to!(csts => csts@[index as int]));
            proof {
                lemma_views_index(csts@, index as int);
            }
            let found = find_by_offset_in_cst(&csts[index], offset);
            proof {
                if let Some(node) = found {
                    lemma_views_index(csts@, index as int);
                    lemma_nodes_seq_contains(views(csts@), index as int, node@);
                }
            }
            found
        },
        None => None,
    }
}

} // verus!

verus! {

/// Search in a syntax tree whose nodes are numbered and located.
pub trait TreeWithIds {
    /// All nodes of the tree, in source order.
    spec fn spec_nodes(&self) -> Seq<CstView>;

    spec fn spec_first_id(&self) -> Option<Id>;

    spec fn spec_first_offset(&self) -> Option<Offset>;

    fn first_id(&self) -> (result: Option<Id>)
        ensures
            result == self.spec_first_id(),
    ;

    /// Finds the node with the given ID. Where the IDs grow in source order,
    /// as the parser numbers the nodes, every node is found by its ID.
    fn find(&self, id: Id) -> (result: Option<&Cst>)
        ensures
            result matches Some(node) ==> node.data.id == id && self.spec_nodes().contains(node@),
            ids_increasing(self.spec_nodes()) && has_id(self.spec_nodes(), id.0) ==> result is Some,
    ;

    fn first_offset(&self) -> (result: Option<Offset>)
        ensures
            result == self.spec_first_offset(),
    ;

    fn find_by_offset(&self, offset: Offset) -> (result: Option<&Cst>)
        ensures
            result matches Some(node) ==> covers(node@, offset) && self.spec_nodes().contains(
                node@,
            ),
    ;
}

impl TreeWithIds for Cst {
    open spec fn spec_nodes(&self) -> Seq<CstView> {
        self@.nodes()
    }

    open spec fn spec_first_id(&self) -> Option<Id> {
        Some(self.data.id)
    }

    open spec fn spec_first_offset(&self) -> Option<Offset> {
        Some(self.data.span.start)
    }

    fn first_id(&self) -> (result: Option<Id>) {
        Some(self.data.id)
    }

    fn find(&self, id: Id) -> (result: Option<&Cst>) {
        find_in_cst(self, id)
    }

    fn first_offset(&self) -> (result: Option<Offset>) {
        Some(self.data.span.start)
    }

    /// The innermost node covering the offset; if the node itself covers it,
    /// some node is found.
    fn find_by_offset(&self, offset: Offset) -> (result: Option<&Cst>)
        ensures
            found_view(result) == found_at(self@, offset),
            covers(self@, offset) ==> result is Some,
    {
        find_by_offset_in_cst(self, offset)
    }
}

impl TreeWithIds for Vec<Cst> {
    open spec fn spec_nodes(&self) -> Seq<CstView> {
        nodes_seq(views(self@))
    }

    open spec fn spec_first_id(&self) -> Option<Id> {
        if self.len() == 0 {
            None
        } else {
            Some(self@[0].data.id)
        }
    }

    open spec fn spec_first_offset(&self) -> Option<Offset> {
        if self.len() == 0 {
            None
        } else {
            Some(self@[0].data.span.start)
        }
    }

    fn first_id(&self) -> (result: Option<Id>) {
        if self.len() == 0 {
            None
        } else {
            Some(self[0].data.id)
        }
    }

    fn find(&self, id: Id) -> (result: Option<&Cst>) {
        find_in(self, id)
    }

    fn first_offset(&self) -> (result: Option<Offset>) {
        if self.len() == 0 {
            None
        } else {
            Some(self[0].data.span.start)
        }
    }

    /// What the search finds in the last of the leading trees that start
    /// at or before the offset.
    fn find_by_offset(&self, offset: Offset) -> (result: Option<&Cst>)
        ensures
            found_view(result) == found_in(views(self@), offset),
    {
        find_by_offset_in(self, offset)
    }
}

} // verus!
