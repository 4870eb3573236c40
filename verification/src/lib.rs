pub mod annotate;
pub mod api_error;
pub mod binary;
pub mod cache;
pub mod clipboard_text;
pub mod counter;
pub mod counter_laws;
pub mod ignore_rules;
pub mod sequences;
pub mod settings;
pub mod text_order;
pub mod tokenizer;
pub mod totals;
pub mod tree_builder;
pub mod tree_filter;
pub mod tree_laws;
pub mod tree_node;
pub mod tree_order_laws;
pub mod tree_sort;
pub mod tree_text;
pub mod watcher;
pub mod watcher_laws;
