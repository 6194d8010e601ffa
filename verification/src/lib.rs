//! Core logic of a serial debug server for boards under test.
pub mod advanced;
pub mod ansi_strip;
pub mod answered;
pub mod answers;
pub mod append;
pub mod archive_order;
pub mod ask;
pub mod asked_fields;
pub mod board;
pub mod board_answers;
pub mod board_fields;
pub mod board_keys;
pub mod board_states;
pub mod changes;
pub mod checked_configs;
pub mod command_line;
pub mod config;
pub mod created;
pub mod created_keys;
pub mod created_top;
pub mod current;
pub mod defaults;
pub mod dut_state;
pub mod edit;
pub mod error;
pub mod fields;
pub mod file_paths;
pub mod finish;
pub mod fixed_texts;
pub mod flash;
pub mod flashing;
pub mod form;
pub mod headless;
pub mod highlight;
pub mod in_force;
pub mod independent;
pub mod init_options;
pub mod inotify_watcher;
pub mod insert;
pub mod json_text;
pub mod jsonc;
pub mod kept;
pub mod key_texts;
pub mod known_defaults;
pub mod last_token;
pub mod line_texts;
pub mod lines;
pub mod listed_words;
pub mod loader;
pub mod locate;
pub mod lock_files;
pub mod lock_manager;
pub mod lock_names;
pub mod log_archive;
pub mod log_keeping;
pub mod log_manager;
pub mod log_reading;
pub mod marker;
pub mod mcp_json;
pub mod merge;
pub mod names;
pub mod naming;
pub mod number;
pub mod occupancy;
pub mod options;
pub mod order;
pub mod outcome;
pub mod owner;
pub mod owner_records;
pub mod path;
pub mod pieces;
pub mod place;
pub mod plain_states;
pub mod prompt;
pub mod prompt_colors;
pub mod render;
pub mod replies;
pub mod resolve;
pub mod schema;
pub mod server_args;
pub mod server_entries;
pub mod session_lock;
pub mod sessions;
pub mod set_back;
pub mod slots;
pub mod spared;
pub mod spelling;
pub mod splice;
pub mod state_manager;
pub mod text;
pub mod text_map;
pub mod tidy;
pub mod tmp_files;
pub mod together;
pub mod told;
pub mod top_keys;
pub mod top_level;
pub mod top_texts;
pub mod typed_answers;
pub mod unchanged;
pub mod unclassified;
pub mod update;
pub mod update_config;
pub mod update_dut;
pub mod updated;
pub mod updated_boards;
pub mod updated_top;
pub mod validate;
pub mod walk;
pub mod written;
