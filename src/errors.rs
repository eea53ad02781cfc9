//! Stable error codes and the `[CODE] message` form of every returned error.
use crate::text::push_str;
use vstd::prelude::*;

verus! {

pub const E_ROOT_REQUIRED: &'static str = "E_ROOT_REQUIRED";

pub const E_ROOT_INVALID: &'static str = "E_ROOT_INVALID";

pub const E_ROOT_NOT_DIR: &'static str = "E_ROOT_NOT_DIR";

pub const E_PATH_OUTSIDE_ROOT: &'static str = "E_PATH_OUTSIDE_ROOT";

pub const E_DIRPATH_NOT_DIR: &'static str = "E_DIRPATH_NOT_DIR";

pub const E_OUTPUT_REQUIRED: &'static str = "E_OUTPUT_REQUIRED";

pub const E_OUTPUT_IS_DIR: &'static str = "E_OUTPUT_IS_DIR";

pub const E_OUTPUT_EXISTS: &'static str = "E_OUTPUT_EXISTS";

pub const E_IO_READ: &'static str = "E_IO_READ";

pub const E_IO_WRITE: &'static str = "E_IO_WRITE";

pub const E_RULE_INVALID_GLOB: &'static str = "E_RULE_INVALID_GLOB";

/// `[code] message`.
pub open spec fn coded_text(code: Seq<char>, message: Seq<char>) -> Seq<char> {
    seq!['['] + code + seq![']', ' '] + message
}

/// `context: detail`.
pub open spec fn context_text(context: Seq<char>, detail: Seq<char>) -> Seq<char> {
    context + seq![':', ' '] + detail
}

/// Prefixes a message with its bracketed error code.
pub fn coded(code: &str, message: &str) -> (r: String)
    ensures
        r@ == coded_text(code@, message@),
{
    let mut out = String::new();
    push_str(&mut out, "[");
    push_str(&mut out, code);
    push_str(&mut out, "] ");
    push_str(&mut out, message);
    proof {
        reveal_strlit("[");
        reveal_strlit("] ");
    }
    assert(out@ =~= coded_text(code@, message@));
    out
}

fn with_context(context: &str, detail: &str) -> (r: String)
    ensures
        r@ == context_text(context@, detail@),
{
    let mut out = String::new();
    push_str(&mut out, context);
    push_str(&mut out, ": ");
    push_str(&mut out, detail);
    proof {
        reveal_strlit(": ");
    }
    assert(out@ =~= context_text(context@, detail@));
    out
}

/// A read failure: `[E_IO_READ] context: error`.
pub fn read_error(context: &str, error: &str) -> (r: String)
    ensures
        r@ == coded_text(E_IO_READ@, context_text(context@, error@)),
{
    let m = with_context(context, error);
    coded(E_IO_READ, m.as_str())
}

/// A write failure: `[E_IO_WRITE] context: error`.
pub fn write_error(context: &str, error: &str) -> (r: String)
    ensures
        r@ == coded_text(E_IO_WRITE@, context_text(context@, error@)),
{
    let m = with_context(context, error);
    coded(E_IO_WRITE, m.as_str())
}

} // verus!
