//! Core engine of a command palette: fuzzy matching of a query against
//! candidate text, ranking of candidates by match quality, splitting matched
//! text into highlight runs, and the palette state (open flag, query,
//! selection cursor, submenu path) that the presentation layer drives.

mod casefold;
mod command;
mod highlight;
mod nav;
mod palette;
mod rank;
mod search;

// Case folding, as the matcher's contracts speak of it
pub use casefold::fold_char;
pub use casefold::folded;
pub use casefold::is_lower_char;
pub use casefold::is_upper_char;

// Command types
pub use command::command;
pub use command::Category;
pub use command::Command;
pub use command::CommandAction;
pub use command::CommandBuilder;
pub use command::CommandId;

// Match highlighting
pub use highlight::highlight_runs;
pub use highlight::highlight_runs_from;
pub use highlight::lemma_highlight_runs_reconstruct;
pub use highlight::lemma_match_positions_render_losslessly;
pub use highlight::run_view;
pub use highlight::runs_text;

// Selection navigation
pub use nav::navigate_down;
pub use nav::navigate_up;

// Palette state
pub use palette::PaletteState;

// Ranking
pub use rank::better;
pub use rank::command_outcome;
pub use rank::description_outcome;
pub use rank::entry_view;
pub use rank::filter_commands;
pub use rank::get_filtered_command_index;
pub use rank::get_filtered_count;
pub use rank::is_ranking;
pub use rank::keywords_outcome_upto;
pub use rank::lemma_ranked_positions_length;
pub use rank::lemma_ranking_unique;
pub use rank::matched_count;
pub use rank::ranked_len;

// Matching
pub use search::embeds;
pub use search::embeds_from;
pub use search::fuzzy_match;
pub use search::greedy_from;
pub use search::greedy_matches;
pub use search::greedy_positions;
pub use search::is_separator;
pub use search::is_subsequence_of;
pub use search::lemma_empty_pattern_matches;
pub use search::lemma_greedy_shape;
pub use search::lemma_match_is_subsequence;
pub use search::lemma_no_match_without_subsequence;
pub use search::lemma_subsequence_matches;
pub use search::match_outcome;
pub use search::match_score;
pub use search::points_prefix;
pub use search::position_points;
pub use search::result_outcome;
pub use search::word_boundary_at;
pub use search::FuzzyMatch;
