//! Construction of the concrete source identifier for one attachment of
//! one node: the registry stores a directory prefix per attachment, and the
//! node id is rendered in decimal between that prefix and the image
//! extension.

use vstd::prelude::*;

use crate::NodeId;

verus! {

use vstd::string::StringExecFns;

/// The decimal digit character for `d`.
pub open spec fn digit_char(d: nat) -> char
    recommends
        d < 10,
{
    if d == 0 {
        '0'
    } else if d == 1 {
        '1'
    } else if d == 2 {
        '2'
    } else if d == 3 {
        '3'
    } else if d == 4 {
        '4'
    } else if d == 5 {
        '5'
    } else if d == 6 {
        '6'
    } else if d == 7 {
        '7'
    } else if d == 8 {
        '8'
    } else {
        '9'
    }
}

/// The decimal rendering of `n`, most significant digit first, without
/// leading zeros (a single `'0'` for zero).
pub open spec fn decimal_digits(n: nat) -> Seq<char>
    decreases n,
{
    if n < 10 {
        seq![digit_char(n)]
    } else {
        decimal_digits(n / 10).push(digit_char(n % 10))
    }
}

/// The source identifier for the attachment of node `node_id` stored under
/// the directory prefix `path`: `"<path>/<node_id>.png"`.
pub open spec fn source_path_spec(path: Seq<char>, node_id: NodeId) -> Seq<char> {
    path + "/"@ + decimal_digits(node_id as nat) + ".png"@
}

/// The one-character string slice for the decimal digit `d`.
fn digit_str(d: u32) -> (r: &'static str)
    requires
        d < 10,
    ensures
        r@ == seq![digit_char(d as nat)],
{
    proof {
        reveal_strlit("0");
        reveal_strlit("1");
        reveal_strlit("2");
        reveal_strlit("3");
        reveal_strlit("4");
        reveal_strlit("5");
        reveal_strlit("6");
        reveal_strlit("7");
        reveal_strlit("8");
        reveal_strlit("9");
    }
    if d == 0 {
        "0"
    } else if d == 1 {
        "1"
    } else if d == 2 {
        "2"
    } else if d == 3 {
        "3"
    } else if d == 4 {
        "4"
    } else if d == 5 {
        "5"
    } else if d == 6 {
        "6"
    } else if d == 7 {
        "7"
    } else if d == 8 {
        "8"
    } else {
        "9"
    }
}

/// Renders `n` in decimal.
pub fn u32_decimal(n: u32) -> (r: String)
    ensures
        r@ == decimal_digits(n as nat),
    decreases n,
{
    let d = n % 10;
    if n < 10 {
        digit_str(d).to_owned()
    } else {
        let mut prefix = u32_decimal(n / 10);
        prefix.append(digit_str(d));
        proof {
            assert(prefix@ =~= decimal_digits((n / 10) as nat).push(digit_char((n % 10) as nat)));
        }
        prefix
    }
}

/// Builds the source identifier `"<path>/<node_id>.png"` from an
/// attachment's directory prefix and a node id.
pub fn attachment_source_path(path: &str, node_id: NodeId) -> (r: String)
    ensures
        r@ == source_path_spec(path@, node_id),
{
    let mut r = path.to_owned();
    r.append("/");
    let digits = u32_decimal(node_id);
    r.append(digits.as_str());
    r.append(".png");
    r
}

} // verus!
