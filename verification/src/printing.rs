//! The raw print transport's byte stream: the device command sequence that
//! wraps a formatted receipt, and the quoting used when the byte file's
//! path is spliced into the helper invocation. Writing the stream to the
//! spooler is I/O and lives outside the library.

use vstd::prelude::*;
use vstd::string::StringSliceAdditionalSpecFns;

use crate::text::{chars_to_string, chars_vec, push_dec, spec_dec};

verus! {

/// How one character is quoted for the helper shell: a single quote is
/// doubled, a double quote is backtick-escaped, all else passes through.
pub open spec fn spec_esc_char(c: char) -> Seq<char> {
    if c == '\'' {
        seq!['\'', '\'']
    } else if c == '"' {
        seq!['`', '"']
    } else {
        seq![c]
    }
}

/// A whole string quoted for the helper shell, character by character.
pub open spec fn spec_ps_escape(s: Seq<char>) -> Seq<char>
    decreases s.len(),
{
    if s.len() == 0 {
        Seq::empty()
    } else {
        spec_ps_escape(s.drop_last()) + spec_esc_char(s.last())
    }
}

/// Quote a value for splicing into the print helper's command text.
pub fn ps_escape(s: &str) -> (r: String)
    ensures
        r@ == spec_ps_escape(s@),
{
    let cs = chars_vec(s);
    let mut out: Vec<char> = Vec::new();
    let mut i: usize = 0;
    while i < cs.len()
        invariant
            i <= cs@.len(),
            cs@ == s@,
            out@ == spec_ps_escape(s@.take(i as int)),
        decreases cs@.len() - i,
    {
        let c = cs[i];
        if c == '\'' {
            out.push('\'');
            out.push('\'');
        } else if c == '"' {
            out.push('`');
            out.push('"');
        }
        if c != '\'' && c != '"' {
            out.push(c);
        }
        proof {
            assert(s@.take(i + 1).drop_last() =~= s@.take(i as int));
            assert(s@.take(i + 1).last() == s@[i as int]);
            assert(out@ =~= spec_ps_escape(s@.take(i as int)) + spec_esc_char(s@[i as int]));
        }
        i = i + 1;
    }
    proof {
        assert(s@.take(s@.len() as int) =~= s@);
    }
    chars_to_string(&out)
}

/// The device commands emitted before the receipt body: initialize,
/// center, double size and emphasis around the branding line, emphasis
/// around the slogan, then back to normal size and left alignment.
pub open spec fn spec_stream_prefix() -> Seq<u8> {
    seq![0x1bu8, 0x40, 0x1b, 0x61, 0x01, 0x1d, 0x21, 0x11, 0x1b, 0x45, 0x01]
        + vstd::utf8::encode_utf8("MEET & EAT\r\n"@) + seq![
        0x1bu8,
        0x45,
        0x00,
        0x1d,
        0x21,
        0x00,
        0x1b,
        0x45,
        0x01,
    ] + vstd::utf8::encode_utf8("Fresh Food | Fast Service\r\n"@) + seq![
        0x1bu8,
        0x45,
        0x00,
        0x1b,
        0x61,
        0x00,
    ]
}

/// The device commands emitted after the receipt body: a centered closing
/// line, trailing feed lines, then the paper-cut command.
pub open spec fn spec_stream_suffix() -> Seq<u8> {
    seq![0x1bu8, 0x61, 0x01] + vstd::utf8::encode_utf8("Thank you. Visit again!\r\n"@) + seq![
        0x1bu8,
        0x61,
        0x00,
    ] + vstd::utf8::encode_utf8("\r\n\r\n\r\n"@) + seq![0x1du8, 0x56, 0x41, 0x03]
}

/// The whole command stream around a receipt body.
pub open spec fn spec_print_stream(body: Seq<u8>) -> Seq<u8> {
    spec_stream_prefix() + body + spec_stream_suffix()
}

fn push_bytes(out: &mut Vec<u8>, s: &[u8])
    ensures
        final(out)@ == old(out)@ + s@,
{
    let mut i: usize = 0;
    while i < s.len()
        invariant
            i <= s@.len(),
            out@ == old(out)@ + s@.take(i as int),
        decreases s@.len() - i,
    {
        out.push(s[i]);
        proof {
            assert(out@ =~= old(out)@ + s@.take(i as int + 1));
        }
        i = i + 1;
    }
    proof {
        assert(s@.take(s@.len() as int) =~= s@);
    }
}

fn push_text(out: &mut Vec<u8>, s: &str)
    ensures
        final(out)@ == old(out)@ + vstd::utf8::encode_utf8(s@),
{
    push_bytes(out, s.as_bytes());
}

/// Build the raw device command stream for a formatted receipt: the
/// branding prefix, the receipt's UTF-8 bytes, the closing suffix and the
/// cut command, byte for byte.
pub fn print_stream(receipt: &str) -> (r: Vec<u8>)
    ensures
        r@ == spec_print_stream(vstd::utf8::encode_utf8(receipt@)),
{
    let mut out: Vec<u8> = Vec::new();
    out.push(0x1b);
    out.push(0x40);
    out.push(0x1b);
    out.push(0x61);
    out.push(0x01);
    out.push(0x1d);
    out.push(0x21);
    out.push(0x11);
    out.push(0x1b);
    out.push(0x45);
    out.push(0x01);
    push_text(&mut out, "MEET & EAT\r\n");
    out.push(0x1b);
    out.push(0x45);
    out.push(0x00);
    out.push(0x1d);
    out.push(0x21);
    out.push(0x00);
    out.push(0x1b);
    out.push(0x45);
    out.push(0x01);
    push_text(&mut out, "Fresh Food | Fast Service\r\n");
    out.push(0x1b);
    out.push(0x45);
    out.push(0x00);
    out.push(0x1b);
    out.push(0x61);
    out.push(0x00);
    push_text(&mut out, receipt);
    out.push(0x1b);
    out.push(0x61);
    out.push(0x01);
    push_text(&mut out, "Thank you. Visit again!\r\n");
    out.push(0x1b);
    out.push(0x61);
    out.push(0x00);
    push_text(&mut out, "\r\n\r\n\r\n");
    out.push(0x1d);
    out.push(0x56);
    out.push(0x41);
    out.push(0x03);
    proof {
        assert(out@ =~= spec_print_stream(vstd::utf8::encode_utf8(receipt@)));
    }
    out
}

/// The name of the scratch file that carries the byte stream to the
/// helper, tagged with a millisecond timestamp.
pub fn tmp_file_name(ms: u64) -> (s: String)
    ensures
        s@ == "meateat_"@ + spec_dec(ms as nat) + ".txt"@,
{
    let mut v = chars_vec("meateat_");
    push_dec(&mut v, ms);
    let tail = chars_vec(".txt");
    let mut i: usize = 0;
    let ghost pre = v@;
    while i < tail.len()
        invariant
            i <= tail@.len(),
            v@ == pre + tail@.take(i as int),
        decreases tail@.len() - i,
    {
        v.push(tail[i]);
        proof {
            assert(v@ =~= pre + tail@.take(i as int + 1));
        }
        i = i + 1;
    }
    proof {
        assert(tail@.take(tail@.len() as int) =~= tail@);
        assert(v@ =~= "meateat_"@ + spec_dec(ms as nat) + ".txt"@);
    }
    chars_to_string(&v)
}

} // verus!
