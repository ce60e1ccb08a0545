//! Text of the planner's error messages, built from their parts.

use vstd::prelude::*;

verus! {

/// The character of the decimal digit `d` (`0 <= d < 10`).
pub open spec fn digit_char(d: int) -> char {
    if d == 0 {
        '0'
    } else if d == 1 {
        '1'
    } else if d == 2 {
        '2'
    } else if d == 3 {
        '3'
    } else if d == 4 {
        '4'
    } else if d == 5 {
        '5'
    } else if d == 6 {
        '6'
    } else if d == 7 {
        '7'
    } else if d == 8 {
        '8'
    } else {
        '9'
    }
}

/// The decimal representation of `n`, without leading zeros.
pub open spec fn decimal(n: nat) -> Seq<char>
    decreases n,
{
    if n < 10 {
        seq![digit_char(n as int)]
    } else {
        decimal(n / 10).push(digit_char((n % 10) as int))
    }
}

/// Message for a snapshot whose entry count differs from the manifest's.
pub open spec fn size_mismatch_text(snapshot_len: nat, manifest_len: nat) -> Seq<char> {
    "snapshot has "@ + decimal(snapshot_len) + " entries but manifest declares "@ + decimal(
        manifest_len,
    )
}

/// Message for a snapshot entry whose alias the manifest does not declare.
pub open spec fn unknown_alias_text(alias: Seq<char>) -> Seq<char> {
    "snapshot constituent '"@ + alias + "' is not in the manifest"@
}

/// Message for a manifest constituent that no snapshot entry carries.
pub open spec fn missing_alias_text(alias: Seq<char>) -> Seq<char> {
    "manifest constituent '"@ + alias + "' is missing from the snapshot"@
}

fn digit_str(d: u64) -> (s: &'static str)
    requires
        d < 10,
    ensures
        s@ == seq![digit_char(d as int)],
{
    if d == 0 {
        proof { reveal_strlit("0"); }
        "0"
    } else if d == 1 {
        proof { reveal_strlit("1"); }
        "1"
    } else if d == 2 {
        proof { reveal_strlit("2"); }
        "2"
    } else if d == 3 {
        proof { reveal_strlit("3"); }
        "3"
    } else if d == 4 {
        proof { reveal_strlit("4"); }
        "4"
    } else if d == 5 {
        proof { reveal_strlit("5"); }
        "5"
    } else if d == 6 {
        proof { reveal_strlit("6"); }
        "6"
    } else if d == 7 {
        proof { reveal_strlit("7"); }
        "7"
    } else if d == 8 {
        proof { reveal_strlit("8"); }
        "8"
    } else {
        proof { reveal_strlit("9"); }
        "9"
    }
}

/// Appends the decimal representation of `n` to `out`.
fn append_decimal(out: &mut String, n: u64)
    ensures
        final(out)@ == old(out)@ + decimal(n as nat),
    decreases n,
{
    if n >= 10 {
        append_decimal(out, n / 10);
    }
    out.append(digit_str(n % 10));
}

/// The message of a snapshot/manifest size mismatch.
pub fn size_mismatch_message(snapshot_len: usize, manifest_len: usize) -> (m: String)
    ensures
        m@ == size_mismatch_text(snapshot_len as nat, manifest_len as nat),
{
    let mut m = "snapshot has ".to_owned();
    append_decimal(&mut m, snapshot_len as u64);
    m.append(" entries but manifest declares ");
    append_decimal(&mut m, manifest_len as u64);
    m
}

/// The message of a snapshot alias missing from the manifest.
pub fn unknown_alias_message(alias: &str) -> (m: String)
    ensures
        m@ == unknown_alias_text(alias@),
{
    let mut m = "snapshot constituent '".to_owned();
    m.append(alias);
    m.append("' is not in the manifest");
    m
}

/// The message of a manifest constituent missing from the snapshot.
pub fn missing_alias_message(alias: &str) -> (m: String)
    ensures
        m@ == missing_alias_text(alias@),
{
    let mut m = "manifest constituent '".to_owned();
    m.append(alias);
    m.append("' is missing from the snapshot");
    m
}

} // verus!
