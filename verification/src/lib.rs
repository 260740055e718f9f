pub mod build_target_path;
pub mod mass_move;
pub mod search_by_pattern;
pub mod wildcard;
