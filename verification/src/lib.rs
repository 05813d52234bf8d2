//! Verified text logic of a Markdown and MDX formatter.
pub mod chars;
pub mod text;
pub mod lines;
pub mod mdx;
pub mod preserve;
pub mod blocks;
pub mod embed;
pub mod format;
pub mod run;
pub mod gen_code;
pub mod gen_inline;
pub mod gen_block;
pub mod gen_nodes;
pub mod print;
pub mod items;
pub mod source;
pub mod generate;
pub mod balance;
pub mod soft_breaks;
pub mod laws;
