//! The execution core of a sandboxed shell: it turns a parsed command into
//! observable effects against a host capability — expansion, two-phase
//! redirection, pipelines with stdin threading and pipefail, and bounded
//! command-substitution recursion — together with the verified text, archive
//! and formatting routines of the toolbox programs that run under it.
pub mod ast;
pub mod braces;
pub mod cksum;
pub mod columns;
pub mod control;
pub mod difftext;
pub mod exec;
pub mod expand;
pub mod fields;
pub mod filetype;
pub mod globmatch;
pub mod host;
pub mod hunks;
pub mod joinfields;
pub mod lsfmt;
pub mod mock;
pub mod numparse;
pub mod odfmt;
pub mod parse;
pub mod patchtext;
pub mod redirect;
pub mod sedtext;
pub mod sizes;
pub mod smap;
pub mod splitname;
pub mod state;
pub mod strutil;
pub mod textmatch;
pub mod trset;
pub mod unexpandtext;
pub mod zipfile;
