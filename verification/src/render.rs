//! Rendering of the informational output lines.
//!
//! Each non-skipped entry produces one line on standard output, and a
//! further line when the entry carries a comment.  The lines are built
//! here as byte strings, with numbers rendered in decimal.

use vstd::prelude::*;

verus! {

/// The decimal digits of `n`, most significant first.
pub open spec fn dec_digits(n: nat) -> Seq<u8>
    decreases n,
{
    if n < 10 {
        seq![(48 + n) as u8]
    } else {
        dec_digits(n / 10).push((48 + n % 10) as u8)
    }
}

/// Renders `n` in decimal.
pub fn u64_to_dec(n: u64) -> (r: Vec<u8>)
    ensures
        r@ == dec_digits(n as nat),
    decreases n,
{
    if n < 10 {
        let mut v: Vec<u8> = Vec::new();
        v.push(48 + n as u8);
        proof {
            assert(v@ =~= dec_digits(n as nat));
        }
        v
    } else {
        proof {
            assert(n / 10 < n) by (nonlinear_arith)
                requires
                    n >= 10,
            ;
        }
        let mut v = u64_to_dec(n / 10);
        v.push(48 + (n % 10) as u8);
        proof {
            assert((n / 10) as nat == (n as nat) / 10);
            assert((n % 10) as nat == (n as nat) % 10);
            assert(v@ =~= dec_digits(n as nat));
        }
        v
    }
}

/// The text `File ` that opens every line about an entry.
pub open spec fn lit_file() -> Seq<u8> {
    seq![70u8, 105u8, 108u8, 101u8, 32u8]
}

/// The text `, comment: `.
pub open spec fn lit_comment() -> Seq<u8> {
    seq![44u8, 32u8, 99u8, 111u8, 109u8, 109u8, 101u8, 110u8, 116u8, 58u8, 32u8]
}

/// The text ` extracted to "`.
pub open spec fn lit_extracted() -> Seq<u8> {
    seq![
        32u8,
        101u8,
        120u8,
        116u8,
        114u8,
        97u8,
        99u8,
        116u8,
        101u8,
        100u8,
        32u8,
        116u8,
        111u8,
        32u8,
        34u8,
    ]
}

/// The closing quote `"`.
pub open spec fn lit_quote() -> Seq<u8> {
    seq![34u8]
}

/// The text `" (` between a path and a size.
pub open spec fn lit_quote_paren() -> Seq<u8> {
    seq![34u8, 32u8, 40u8]
}

/// The text ` bytes)` that closes a file line.
pub open spec fn lit_bytes() -> Seq<u8> {
    seq![32u8, 98u8, 121u8, 116u8, 101u8, 115u8, 41u8]
}

/// The text `Usage: ` that opens the usage line.
pub open spec fn lit_usage() -> Seq<u8> {
    seq![85u8, 115u8, 97u8, 103u8, 101u8, 58u8, 32u8]
}

/// The text ` <filename>` that closes the usage line.
pub open spec fn lit_filename() -> Seq<u8> {
    seq![32u8, 60u8, 102u8, 105u8, 108u8, 101u8, 110u8, 97u8, 109u8, 101u8, 62u8]
}

/// The line `File <i>, comment: <comment>`.
pub open spec fn comment_line_of(i: nat, comment: Seq<u8>) -> Seq<u8> {
    lit_file() + dec_digits(i) + lit_comment() + comment
}

/// The line `File <i> extracted to "<path>"`.
pub open spec fn dir_line_of(i: nat, path: Seq<u8>) -> Seq<u8> {
    lit_file() + dec_digits(i) + lit_extracted() + path + lit_quote()
}

/// The line `File <i> extracted to "<path>" (<size> bytes)`.
pub open spec fn file_line_of(i: nat, path: Seq<u8>, size: u64) -> Seq<u8> {
    lit_file() + dec_digits(i) + lit_extracted() + path + lit_quote_paren() + dec_digits(
        size as nat,
    ) + lit_bytes()
}

/// The line `Usage: <prog> <filename>`.
pub open spec fn usage_line_of(prog: Seq<u8>) -> Seq<u8> {
    lit_usage() + prog + lit_filename()
}

fn push_lit_file(out: &mut Vec<u8>)
    ensures
        final(out)@ == old(out)@ + lit_file(),
{
    out.push(70);
    out.push(105);
    out.push(108);
    out.push(101);
    out.push(32);
    proof {
        assert(out@ =~= old(out)@ + lit_file());
    }
}

fn push_lit_comment(out: &mut Vec<u8>)
    ensures
        final(out)@ == old(out)@ + lit_comment(),
{
    out.push(44);
    out.push(32);
    out.push(99);
    out.push(111);
    out.push(109);
    out.push(109);
    out.push(101);
    out.push(110);
    out.push(116);
    out.push(58);
    out.push(32);
    proof {
        assert(out@ =~= old(out)@ + lit_comment());
    }
}

fn push_lit_extracted(out: &mut Vec<u8>)
    ensures
        final(out)@ == old(out)@ + lit_extracted(),
{
    out.push(32);
    out.push(101);
    out.push(120);
    out.push(116);
    out.push(114);
    out.push(97);
    out.push(99);
    out.push(116);
    out.push(101);
    out.push(100);
    out.push(32);
    out.push(116);
    out.push(111);
    out.push(32);
    out.push(34);
    proof {
        assert(out@ =~= old(out)@ + lit_extracted());
    }
}

/// Builds the comment line for entry `i`.
pub fn build_comment_line(i: u64, comment: &Vec<u8>) -> (r: Vec<u8>)
    ensures
        r@ == comment_line_of(i as nat, comment@),
{
    let mut out: Vec<u8> = Vec::new();
    push_lit_file(&mut out);
    let digits = u64_to_dec(i);
    crate::sanitize::push_all(&mut out, &digits);
    push_lit_comment(&mut out);
    crate::sanitize::push_all(&mut out, comment);
    proof {
        assert(out@ =~= comment_line_of(i as nat, comment@));
    }
    out
}

/// Builds the extraction line for a directory entry.
pub fn build_dir_line(i: u64, path: &Vec<u8>) -> (r: Vec<u8>)
    ensures
        r@ == dir_line_of(i as nat, path@),
{
    let mut out: Vec<u8> = Vec::new();
    push_lit_file(&mut out);
    let digits = u64_to_dec(i);
    crate::sanitize::push_all(&mut out, &digits);
    push_lit_extracted(&mut out);
    crate::sanitize::push_all(&mut out, path);
    out.push(34);
    proof {
        assert(out@ =~= dir_line_of(i as nat, path@));
    }
    out
}

/// Builds the extraction line for a file entry, with its declared size.
pub fn build_file_line(i: u64, path: &Vec<u8>, size: u64) -> (r: Vec<u8>)
    ensures
        r@ == file_line_of(i as nat, path@, size),
{
    let mut out: Vec<u8> = Vec::new();
    push_lit_file(&mut out);
    let digits = u64_to_dec(i);
    crate::sanitize::push_all(&mut out, &digits);
    push_lit_extracted(&mut out);
    crate::sanitize::push_all(&mut out, path);
    out.push(34);
    out.push(32);
    out.push(40);
    let size_digits = u64_to_dec(size);
    crate::sanitize::push_all(&mut out, &size_digits);
    out.push(32);
    out.push(98);
    out.push(121);
    out.push(116);
    out.push(101);
    out.push(115);
    out.push(41);
    proof {
        assert(out@ =~= file_line_of(i as nat, path@, size));
    }
    out
}

/// Builds the usage line for a program name.
pub fn build_usage_line(prog: &Vec<u8>) -> (r: Vec<u8>)
    ensures
        r@ == usage_line_of(prog@),
{
    let mut out: Vec<u8> = Vec::new();
    out.push(85);
    out.push(115);
    out.push(97);
    out.push(103);
    out.push(101);
    out.push(58);
    out.push(32);
    crate::sanitize::push_all(&mut out, prog);
    out.push(32);
    out.push(60);
    out.push(102);
    out.push(105);
    out.push(108);
    out.push(101);
    out.push(110);
    out.push(97);
    out.push(109);
    out.push(101);
    out.push(62);
    proof {
        assert(out@ =~= usage_line_of(prog@));
    }
    out
}

} // verus!
