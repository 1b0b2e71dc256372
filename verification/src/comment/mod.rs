mod blocks;
mod doc_comment;
pub mod inline_parser;
mod rcst;
mod rcst_view;
mod string_to_rcst;

pub use self::blocks::{
    block_ends, blocks, blocks_rounds, code_block, code_rounds, fence, fence_at,
    first_fence_from, has_fence, has_ordered_marker, has_unordered_marker, hashes,
    holds_url_separator, is_url_node, is_wrapped_in_whitespace, leading_digit_count,
    leading_hash_count, list, list_item, list_rounds, no_line_holds_url, number_with_whitespace,
    ordered_list_item_marker, paragraph, paragraph_break, paragraph_round, paragraph_rounds,
    spec_block, spec_blocks, spec_code_block, spec_list, spec_list_item, spec_list_item_marker,
    spec_ordered_marker, spec_paragraph, spec_title, spec_title_line, spec_url_line, spec_urls,
    starts_with_url_scheme, title, title_line, title_rounds, top_level_leaves_empty_line,
    unordered_list_item_marker, url_length, url_line, url_separator_at, url_serialization, url_view, urls, urls_rounds,
    ListType,
};
pub use self::doc_comment::{
    are_comments_and_newlines, assignment_comment_parts, assignment_comment_parts_of,
    comment_line, comment_lines, comment_lines_of, comment_part_count, comment_rcsts,
    is_comment_part, leading_comment_parts, try_comment_rcsts,
};
pub use self::inline_parser::{
    ends_in_lone_backslash, has_no_repeated_formatting, inline_source,
    is_proper_formatting_state, InlineFormatting,
};
pub use self::rcst::{marker_text, rcst_texts, Rcst, RcstError, RcstListItemMarker};
pub use self::rcst_view::{
    marker_view, push_whitespace_view, rcst_view, rcst_views, wrap_view, MarkerView, RcstView,
};
pub use self::string_to_rcst::{
    are_whitespace_parts, escaped, indentation_length, is_escapable, is_tail_of,
    is_unicode_whitespace, is_whitespace_node, is_whitespace_part, leading_indentation,
    leading_whitespace_length, lines_measure, lines_text, newline, no_line_ends_in_backslash,
    recombine, single_line_whitespace, spec_escaped, spec_leading_indentation,
    spec_single_line_whitespace, spec_whitespaces_and_newlines, total_whitespace_score,
    whitespace_indentation_score, whitespace_part_view, whitespace_part_views, whitespace_round,
    whitespace_rounds, whitespace_score, whitespaces_and_newlines, WhitespacePart,
};
