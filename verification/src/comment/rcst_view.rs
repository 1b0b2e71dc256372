use super::rcst::{Rcst, RcstError, RcstListItemMarker};
use vstd::prelude::*;

verus! {

/// The value of a node of a doc comment's syntax tree, with texts as
/// character sequences.
pub enum RcstView {
    Whitespace(Seq<char>),
    Newline,
    TrailingWhitespace { child: Box<RcstView>, whitespace: Seq<RcstView> },
    TextPart(Seq<char>),
    EscapedChar(Option<char>),
    Emphasized {
        has_opening_underscore: bool,
        text: Seq<RcstView>,
        has_closing_underscore: bool,
    },
    Link { has_opening_bracket: bool, text: Seq<RcstView>, has_closing_bracket: bool },
    InlineCode { has_opening_backtick: bool, code: Seq<RcstView>, has_closing_backtick: bool },
    Title(Seq<RcstView>),
    TitleLine { octothorpe_count: nat, text: Seq<RcstView> },
    Paragraph(Seq<RcstView>),
    Urls(Seq<RcstView>),
    UrlLine(Seq<char>),
    CodeBlock { code: Seq<RcstView>, has_closing_backticks: bool },
    List(Seq<RcstView>),
    ListItem { marker: MarkerView, content: Seq<RcstView> },
    Error { child: Option<Box<RcstView>>, error: RcstError },
}

/// The value of a list item's marker.
pub enum MarkerView {
    Unordered { has_trailing_space: bool },
    Ordered { number: Box<RcstView>, has_trailing_space: bool },
}

/// The value of a node.
pub open spec fn rcst_view(rcst: Rcst) -> RcstView
    decreases rcst,
{
    match rcst {
        Rcst::Whitespace(whitespace) => RcstView::Whitespace(whitespace@),
        Rcst::Newline => RcstView::Newline,
        Rcst::TrailingWhitespace { child, whitespace } => RcstView::TrailingWhitespace {
            child: Box::new(rcst_view(*child)),
            whitespace: rcst_views(whitespace@),
        },
        Rcst::TextPart(text) => RcstView::TextPart(text@),
        Rcst::EscapedChar(character) => RcstView::EscapedChar(character),
        Rcst::Emphasized { has_opening_underscore, text, has_closing_underscore } =>
            RcstView::Emphasized {
            has_opening_underscore,
            text: rcst_views(text@),
            has_closing_underscore,
        },
        Rcst::Link { has_opening_bracket, text, has_closing_bracket } => RcstView::Link {
            has_opening_bracket,
            text: rcst_views(text@),
            has_closing_bracket,
        },
        Rcst::InlineCode { has_opening_backtick, code, has_closing_backtick } =>
            RcstView::InlineCode {
            has_opening_backtick,
            code: rcst_views(code@),
            has_closing_backtick,
        },
        Rcst::Title(lines) => RcstView::Title(rcst_views(lines@)),
        Rcst::TitleLine { octothorpe_count, text } => RcstView::TitleLine {
            octothorpe_count: octothorpe_count as nat,
            text: rcst_views(text@),
        },
        Rcst::Paragraph(text) => RcstView::Paragraph(rcst_views(text@)),
        Rcst::Urls(urls) => RcstView::Urls(rcst_views(urls@)),
        Rcst::UrlLine(url) => RcstView::UrlLine(url@),
        Rcst::CodeBlock { code, has_closing_backticks } => RcstView::CodeBlock {
            code: rcst_views(code@),
            has_closing_backticks,
        },
        Rcst::List(items) => RcstView::List(rcst_views(items@)),
        Rcst::ListItem { marker, content } => RcstView::ListItem {
            marker: marker_view(marker),
            content: rcst_views(content@),
        },
        Rcst::Error { child, error } => RcstView::Error {
            child: match child {
                Some(child) => Some(Box::new(rcst_view(*child))),
                None => None,
            },
            error,
        },
    }
}

/// The values of nodes, one by one.
pub open spec fn rcst_views(rcsts: Seq<Rcst>) -> Seq<RcstView>
    decreases rcsts,
{
    if rcsts.len() == 0 {
        Seq::empty()
    } else {
        rcst_views(rcsts.drop_last()).push(rcst_view(rcsts.last()))
    }
}

/// The value of a list item's marker.
pub open spec fn marker_view(marker: RcstListItemMarker) -> MarkerView
    decreases marker,
{
    match marker {
        RcstListItemMarker::Unordered { has_trailing_space } => MarkerView::Unordered {
            has_trailing_space,
        },
        RcstListItemMarker::Ordered { number, has_trailing_space } => MarkerView::Ordered {
            number: Box::new(rcst_view(*number)),
            has_trailing_space,
        },
    }
}

impl View for Rcst {
    type V = RcstView;

    open spec fn view(&self) -> RcstView {
        rcst_view(*self)
    }
}

/// The values of nodes have one value for each node.
pub proof fn lemma_rcst_views(rcsts: Seq<Rcst>)
    ensures
        rcst_views(rcsts).len() == rcsts.len(),
        forall|i: int| 0 <= i < rcsts.len() ==> #[trigger] rcst_views(rcsts)[i] == rcst_view(
            rcsts[i],
        ),
    decreases rcsts.len(),
{
    if rcsts.len() > 0 {
        lemma_rcst_views(rcsts.drop_last());
        assert forall|i: int| 0 <= i < rcsts.len() implies #[trigger] rcst_views(rcsts)[i]
            == rcst_view(rcsts[i]) by {
            if i < rcsts.len() - 1 {
                assert(rcsts.drop_last()[i] == rcsts[i]);
            }
        }
    }
}

/// The values of nodes one after the other are the values of both.
pub proof fn lemma_rcst_views_concat(first: Seq<Rcst>, second: Seq<Rcst>)
    ensures
        rcst_views(first + second) == rcst_views(first) + rcst_views(second),
{
    lemma_rcst_views(first);
    lemma_rcst_views(second);
    lemma_rcst_views(first + second);
    assert forall|i: int| 0 <= i < first.len() + second.len() implies rcst_views(first + second)[i]
        == (rcst_views(first) + rcst_views(second))[i] by {
        if i < first.len() {
            assert((first + second)[i] == first[i]);
        } else {
            assert((first + second)[i] == second[i - first.len()]);
        }
    }
    assert(rcst_views(first + second) =~= rcst_views(first) + rcst_views(second));
}

/// A node followed by whitespace, as a value: the node's own trailing
/// whitespace is extended, and any other node gets trailing whitespace.
pub open spec fn wrap_view(node: RcstView, whitespace: Seq<RcstView>) -> RcstView {
    if whitespace.len() == 0 {
        node
    } else {
        match node {
            RcstView::TrailingWhitespace { child, whitespace: own } =>
                RcstView::TrailingWhitespace { child, whitespace: own + whitespace },
            _ => RcstView::TrailingWhitespace { child: Box::new(node), whitespace },
        }
    }
}

/// Whitespace after the last of some nodes, or as nodes where there are
/// none.
pub open spec fn push_whitespace_view(parts: Seq<RcstView>, whitespace: Seq<RcstView>) -> Seq<
    RcstView,
> {
    if parts.len() == 0 {
        parts + whitespace
    } else {
        parts.drop_last().push(wrap_view(parts.last(), whitespace))
    }
}

} // verus!
