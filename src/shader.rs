use vstd::prelude::*;

use vstd::string::StrSliceExecFns;
use vstd::string::StringExecFns;

verus! {

/// First word of a compiled shader file.
pub const SHADER_MAGIC: u32 = 0x5a45ffff;

/// Big-endian bytes of `n`.
pub open spec fn be_bytes(n: u32) -> Seq<u8> {
    seq![(n / 0x1000000) as u8, (n / 0x10000 % 0x100) as u8, (n / 0x100 % 0x100) as u8, (n % 0x100) as u8]
}

/// The four bytes of `n`, most significant first.
pub fn encode_u32(n: u32) -> (r: [u8; 4])
    ensures
        r@ == be_bytes(n),
{
    let b0 = (n >> 24u32) as u8;
    let b1 = (n >> 16u32) as u8;
    let b2 = (n >> 8u32) as u8;
    let b3 = n as u8;
    proof {
        assert(b0 == (n / 0x1000000) as u8) by (bit_vector)
            requires
                b0 == (n >> 24u32) as u8,
        ;
        assert(b1 == (n / 0x10000 % 0x100) as u8) by (bit_vector)
            requires
                b1 == (n >> 16u32) as u8,
        ;
        assert(b2 == (n / 0x100 % 0x100) as u8) by (bit_vector)
            requires
                b2 == (n >> 8u32) as u8,
        ;
        assert(b3 == (n % 0x100) as u8) by (bit_vector)
            requires
                b3 == n as u8,
        ;
    }
    let r = [b0, b1, b2, b3];
    assert(r@ =~= be_bytes(n));
    r
}

/// A compiled shader file: magic word, the four bytes of pipeline options,
/// the vertex and fragment code lengths, then the two codes.
pub open spec fn shader_file(vert: Seq<u8>, frag: Seq<u8>, options: Seq<u8>) -> Seq<u8> {
    be_bytes(SHADER_MAGIC) + options + be_bytes(vert.len() as u32) + be_bytes(frag.len() as u32) + vert + frag
}

fn append_bytes(out: &mut Vec<u8>, bytes: &[u8])
    ensures
        final(out)@ == old(out)@ + bytes@,
{
    let mut i: usize = 0;
    while i < bytes.len()
        invariant
            0 <= i <= bytes@.len(),
            out@ == old(out)@ + bytes@.subrange(0, i as int),
        decreases bytes@.len() - i,
    {
        out.push(bytes[i]);
        proof {
            assert(bytes@.subrange(0, i + 1) =~= bytes@.subrange(0, i as int).push(bytes@[i as int]));
        }
        i = i + 1;
    }
    proof {
        assert(bytes@.subrange(0, bytes@.len() as int) =~= bytes@);
    }
}

/// Packs compiled vertex and fragment code into one shader file.
pub fn shader_binary(vert: &[u8], frag: &[u8], options: [u8; 4]) -> (r: Vec<u8>)
    requires
        vert@.len() <= u32::MAX,
        frag@.len() <= u32::MAX,
    ensures
        r@ == shader_file(vert@, frag@, options@),
{
    let mut binary: Vec<u8> = Vec::new();
    let magic = encode_u32(SHADER_MAGIC);
    append_bytes(&mut binary, magic.as_slice());
    append_bytes(&mut binary, options.as_slice());
    let vert_len = encode_u32(vert.len() as u32);
    append_bytes(&mut binary, vert_len.as_slice());
    let frag_len = encode_u32(frag.len() as u32);
    append_bytes(&mut binary, frag_len.as_slice());
    append_bytes(&mut binary, vert);
    append_bytes(&mut binary, frag);
    binary
}

/// Terminal escape that starts bright white text.
pub const TITLE_STYLE: &'static str = "\x1B[97m";
/// Terminal escape that starts dark grey text.
pub const DESC_STYLE: &'static str = "\x1B[90m";
/// Terminal escape that resets the text style.
pub const RESET_STYLE: &'static str = "\x1B[0m";

/// `s` between `style` and the reset escape, or `s` alone without color.
pub open spec fn styled(s: Seq<char>, style: Seq<char>, no_color: bool) -> Seq<char> {
    if no_color {
        s
    } else {
        style + s + RESET_STYLE@
    }
}

fn paint(s: &str, style: &str, no_color: bool) -> (r: String)
    ensures
        r@ == styled(s@, style@, no_color),
{
    if no_color {
        String::from_str(s)
    } else {
        let mut r = String::from_str(style);
        r.append(s);
        r.append(RESET_STYLE);
        r
    }
}

/// A section title for the help text.
pub fn title(s: &str, no_color: bool) -> (r: String)
    ensures
        r@ == styled(s@, TITLE_STYLE@, no_color),
{
    paint(s, TITLE_STYLE, no_color)
}

/// An option description for the help text.
pub fn desc(s: &str, no_color: bool) -> (r: String)
    ensures
        r@ == styled(s@, DESC_STYLE@, no_color),
{
    paint(s, DESC_STYLE, no_color)
}

/// `word` occurs in `s`.
pub open spec fn occurs(s: Seq<char>, word: Seq<char>) -> bool {
    exists|i: int| 0 <= i && i + word.len() <= s.len() && #[trigger] s.subrange(i, i + word.len()) == word
}

/// Whether `word` occurs in `s`.
pub fn contains_word(s: &str, word: &str) -> (r: bool)
    ensures
        r == occurs(s@, word@),
{
    let n = s.unicode_len();
    let m = word.unicode_len();
    if m > n {
        proof {
            assert forall|i: int| 0 <= i && i + word@.len() <= s@.len() implies #[trigger] s@.subrange(i, i + word@.len()) != word@ by {
            }
        }
        return false;
    }
    let mut i: usize = 0;
    while i <= n - m
        invariant
            n == s@.len(),
            m == word@.len(),
            m <= n,
            0 <= i <= n - m + 1,
            forall|k: int| 0 <= k < i ==> #[trigger] s@.subrange(k, k + m) != word@,
        decreases n - m + 1 - i,
    {
        let mut j: usize = 0;
        while j < m && s.get_char(i + j) == word.get_char(j)
            invariant
                n == s@.len(),
                m == word@.len(),
                i + m <= n,
                0 <= j <= m,
                forall|k: int| 0 <= k < j ==> s@[i + k] == word@[k],
            decreases m - j,
        {
            j = j + 1;
        }
        if j == m {
            assert(s@.subrange(i as int, i + m) =~= word@);
            return true;
        }
        assert(s@.subrange(i as int, i + m)[j as int] != word@[j as int]);
        i = i + 1;
    }
    false
}

/// Name of the color output that a fragment stage writes.
pub const COLOR_OUTPUT: &'static str = "out_color";

/// A fragment shader that writes no color output only fills depth.
pub fn is_depth_fragment(src: &str) -> (r: bool)
    ensures
        r == !occurs(src@, COLOR_OUTPUT@),
{
    !contains_word(src, COLOR_OUTPUT)
}

/// Full GLSL source of one stage: the version line, the shared objects, the
/// stage's prelude, the user's code and a `main` that calls `entry`.
pub open spec fn stage_source(objects: Seq<char>, prelude: Seq<char>, src: Seq<char>, entry: Seq<char>) -> Seq<char> {
    "#version 450\n"@ + objects + "\n"@ + prelude + "\n"@ + src + "\nvoid main() { "@ + entry + "(); }"@
}

/// Builds the GLSL source of one stage for the compiler.
pub fn build_stage_source(objects: &str, prelude: &str, src: &str, entry: &str) -> (r: String)
    ensures
        r@ == stage_source(objects@, prelude@, src@, entry@),
{
    let mut r = String::from_str("#version 450\n");
    r.append(objects);
    r.append("\n");
    r.append(prelude);
    r.append("\n");
    r.append(src);
    r.append("\nvoid main() { ");
    r.append(entry);
    r.append("(); }");
    r
}

/// The vertex stage source around the user's code `src`.
pub fn vertex_source(objects: &str, vert_prelude: &str, src: &str) -> (r: String)
    ensures
        r@ == stage_source(objects@, vert_prelude@, src@, "vertex"@),
{
    build_stage_source(objects, vert_prelude, src, "vertex")
}

/// The fragment stage source around the user's code `src`: the depth-only
/// prelude when `src` writes no color output, the color prelude otherwise.
pub fn fragment_source(objects: &str, color_prelude: &str, depth_prelude: &str, src: &str) -> (r: String)
    ensures
        r@ == stage_source(
            objects@,
            if occurs(src@, COLOR_OUTPUT@) { color_prelude@ } else { depth_prelude@ },
            src@,
            "fragment"@,
        ),
{
    let prelude = if is_depth_fragment(src) {
        depth_prelude
    } else {
        color_prelude
    };
    build_stage_source(objects, prelude, src, "fragment")
}

} // verus!
