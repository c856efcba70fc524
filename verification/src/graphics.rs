//! Terminal graphics: which protocol there is, and images in the Kitty protocol.

use vstd::arithmetic::div_mod::lemma_fundamental_div_mod_converse;
use vstd::prelude::*;
use vstd::utf8::encode_utf8;

use crate::config::{ghostty, is_ghostty};
use crate::text::{
    ascii_lowered, begins, chars_of, contains_text, cut, decimal, holds, is_text, law_holds, lower,
    push_chars, push_number, push_str, starts_with, string_of, within,
};

verus! {

/// Which graphics protocol the terminal supports.
#[derive(Debug, Clone, Copy, PartialEq, Eq, Structural)]
pub enum GraphicsProtocol {
    /// Kitty graphics protocol (best quality, direct PNG).
    Kitty,
    /// Sixel graphics (widely supported fallback).
    Sixel,
    /// No graphics protocol detected: show alt text / raw code blocks.
    NoGraphics,
}

// ---------------------------------------------------------------- detection

/// What the environment says of the terminal: the values of `TERM_PROGRAM`, `TERM` and
/// `REED_SIXEL`, and whether `TMUX` is set.
pub struct TerminalEnv<'a> {
    pub term_program: Option<&'a str>,
    pub term: Option<&'a str>,
    pub tmux: bool,
    pub reed_sixel: Option<&'a str>,
}

/// What a program's name says of its graphics, if anything.
pub open spec fn program_graphics(program: Seq<char>) -> Option<GraphicsProtocol> {
    let lc = ascii_lowered(program);
    if holds(lc, "kitty"@) || holds(lc, "wezterm"@) || holds(lc, "konsole"@) {
        Some(GraphicsProtocol::Kitty)
    } else if holds(lc, "foot"@) || holds(lc, "mlterm"@) || holds(lc, "mintty"@) || holds(
        lc,
        "contour"@,
    ) || holds(lc, "ctx"@) {
        Some(GraphicsProtocol::Sixel)
    } else {
        None
    }
}

/// Whether a value of `TERM` names a multiplexer, which does not pass graphics through.
pub open spec fn multiplexer(term: Seq<char>) -> bool {
    begins(ascii_lowered(term), "tmux"@) || begins(ascii_lowered(term), "screen"@)
}

/// Whether the user asks for Sixel graphics.
pub open spec fn sixel_wanted(value: Option<&str>) -> bool {
    match value {
        Some(v) => v@ == "1"@ || ascii_lowered(v@) == "true"@,
        None => false,
    }
}

/// Whether the terminal is inside of a multiplexer: `TERM` names one, or `TMUX` is set.
pub open spec fn multiplexed(env: TerminalEnv) -> bool {
    env.tmux || (env.term is Some && multiplexer((env.term->0)@))
}

/// The protocol of the terminal: Kitty in Ghostty; what the program's name says; Sixel if the
/// user asks for it; else Kitty. Multiplexers do not pass Kitty graphics through, and of Sixel
/// graphics only those of a terminal known by its name.
pub open spec fn graphics_of(env: TerminalEnv) -> GraphicsProtocol {
    let named = if ghostty(env.term) {
        Some(GraphicsProtocol::Kitty)
    } else if env.term_program is Some {
        program_graphics((env.term_program->0)@)
    } else {
        None
    };
    if named == Some(GraphicsProtocol::Sixel) {
        GraphicsProtocol::Sixel
    } else if multiplexed(env) {
        GraphicsProtocol::NoGraphics
    } else if named is None && sixel_wanted(env.reed_sixel) {
        GraphicsProtocol::Sixel
    } else {
        GraphicsProtocol::Kitty
    }
}

fn program_protocol(program: &str) -> (p: Option<GraphicsProtocol>)
    ensures
        p == program_graphics(program@),
{
    let chars = chars_of(program);
    let lc = lower(&chars);
    if contains_text(&lc, "kitty") || contains_text(&lc, "wezterm") || contains_text(
        &lc,
        "konsole",
    ) {
        Some(GraphicsProtocol::Kitty)
    } else if contains_text(&lc, "foot") || contains_text(&lc, "mlterm") || contains_text(
        &lc,
        "mintty",
    ) || contains_text(&lc, "contour") || contains_text(&lc, "ctx") {
        Some(GraphicsProtocol::Sixel)
    } else {
        None
    }
}

fn is_multiplexer(term: &str) -> (r: bool)
    ensures
        r == multiplexer(term@),
{
    let chars = chars_of(term);
    let lc = lower(&chars);
    starts_with(&lc, "tmux") || starts_with(&lc, "screen")
}

fn wants_sixel(value: Option<&str>) -> (r: bool)
    ensures
        r == sixel_wanted(value),
{
    match value {
        Some(v) => {
            let chars = chars_of(v);
            let lc = lower(&chars);
            is_text(&chars, "1") || is_text(&lc, "true")
        },
        None => false,
    }
}

fn named_protocol(env: &TerminalEnv) -> (p: Option<GraphicsProtocol>)
    ensures
        p == (if ghostty(env.term) {
            Some(GraphicsProtocol::Kitty)
        } else if env.term_program is Some {
            program_graphics((env.term_program->0)@)
        } else {
            None
        }),
{
    if is_ghostty(env.term) {
        return Some(GraphicsProtocol::Kitty);
    }
    match env.term_program {
        Some(program) => program_protocol(program),
        None => None,
    }
}

fn is_multiplexed(env: &TerminalEnv) -> (r: bool)
    ensures
        r == multiplexed(*env),
{
    if env.tmux {
        return true;
    }
    match env.term {
        Some(term) => is_multiplexer(term),
        None => false,
    }
}

/// The graphics protocol that the terminal likely supports.
pub fn detect_graphics_protocol(env: &TerminalEnv) -> (p: GraphicsProtocol)
    ensures
        p == graphics_of(*env),
{
    let named = named_protocol(env);
    if let Some(GraphicsProtocol::Sixel) = named {
        return GraphicsProtocol::Sixel;
    }
    if is_multiplexed(env) {
        return GraphicsProtocol::NoGraphics;
    }
    if named.is_none() && wants_sixel(env.reed_sixel) {
        GraphicsProtocol::Sixel
    } else {
        GraphicsProtocol::Kitty
    }
}

/// Inside of `tmux` or `screen` there are never Kitty graphics, and no graphics at all unless the
/// terminal is known by its own name to have Sixel graphics.
pub proof fn law_no_graphics_in_multiplexers(env: TerminalEnv)
    requires
        multiplexed(env),
    ensures
        graphics_of(env) != GraphicsProtocol::Kitty,
        graphics_of(env) == GraphicsProtocol::Sixel ==> env.term_program is Some
            && program_graphics((env.term_program->0)@) == Some(GraphicsProtocol::Sixel),
{
}

// ---------------------------------------------------------------- the Kitty protocol

/// Maximum base64 characters per chunk of the Kitty protocol.
pub const CHUNK_SIZE: usize = 4096;

/// The characters that stand for six bits each in base64.
pub const BASE64: &'static str = "ABCDEFGHIJKLMNOPQRSTUVWXYZabcdefghijklmnopqrstuvwxyz0123456789+/";

/// The three bytes from `i` on as one number; behind the end every byte is zero.
pub open spec fn three_bytes(data: Seq<u8>, i: int) -> int {
    let byte = |j: int|
        if j < data.len() {
            data[j] as int
        } else {
            0
        };
    byte(i) * 65536 + byte(i + 1) * 256 + byte(i + 2)
}

/// Bytes in base64: every three bytes give four characters, six bits each, the highest bits
/// first. Characters that no byte has bits in are padding.
pub open spec fn base64_text(data: Seq<u8>) -> Seq<char> {
    Seq::new(
        4 * ((data.len() + 2) / 3),
        |k: int|
            {
                let bits = three_bytes(data, k / 4 * 3);
                if k / 4 * 3 + k % 4 > data.len() {
                    '='
                } else if k % 4 == 0 {
                    BASE64@[bits / 262144]
                } else if k % 4 == 1 {
                    BASE64@[bits / 4096 % 64]
                } else if k % 4 == 2 {
                    BASE64@[bits / 64 % 64]
                } else {
                    BASE64@[bits % 64]
                }
            },
    )
}

/// `base64::Engine::encode` of the standard engine: bytes in base64 with the standard alphabet
/// and with padding.
#[verifier::external_body]
fn encode_base64(data: &[u8]) -> (s: String)
    ensures
        s@ == base64_text(data@),
{
    base64::Engine::encode(&base64::engine::general_purpose::STANDARD, data)
}

/// A text in chunks of [`CHUNK_SIZE`], the last one shorter if need be.
pub open spec fn chunks(s: Seq<char>) -> Seq<Seq<char>>
    decreases s.len(),
{
    if s.len() == 0 {
        seq![]
    } else if s.len() <= CHUNK_SIZE {
        seq![s]
    } else {
        seq![s.take(CHUNK_SIZE as int)] + chunks(s.skip(CHUNK_SIZE as int))
    }
}

/// The header of a chunk. The first carries the metadata: show a PNG at once (`a=T`, `f=100`),
/// answer nothing (`q=2`), leave the cursor (`C=1`), and the size in cells.
pub open spec fn chunk_header(first: bool, more: bool, cols: u16, rows: u16) -> Seq<char> {
    let m = if more {
        "1;"@
    } else {
        "0;"@
    };
    if first {
        "\u{1b}_Ga=T,f=100,q=2,C=1,c="@ + decimal(cols as nat) + ",r="@ + decimal(rows as nat)
            + ",m="@ + m
    } else {
        "\u{1b}_Gm="@ + m
    }
}

/// An image in the Kitty protocol, from the chunk at offset `from` of its base64 text on: each
/// chunk with its header, which says whether more follow, and its end.
pub open spec fn kitty_from(s: Seq<char>, from: int, cols: u16, rows: u16) -> Seq<char>
    decreases s.len() - from,
{
    if from < 0 || from >= s.len() {
        seq![]
    } else {
        let to = if from + CHUNK_SIZE < s.len() {
            from + CHUNK_SIZE
        } else {
            s.len() as int
        };
        chunk_header(from == 0, to < s.len(), cols, rows) + s.subrange(from, to) + "\u{1b}\\"@
            + kitty_from(s, to, cols, rows)
    }
}

/// The sequence that shows an image, given in base64.
pub fn kitty_sequence(encoded: &str, cols: u16, rows: u16) -> (seq: String)
    ensures
        seq@ == kitty_from(encoded@, 0, cols, rows),
{
    let chars = chars_of(encoded);
    let n: usize = chars.len();
    let mut out: Vec<char> = Vec::new();
    let mut from: usize = 0;
    assert(out@ + kitty_from(chars@, 0, cols, rows) =~= kitty_from(chars@, 0, cols, rows));
    while from < n
        invariant
            from <= n == chars@.len(),
            chars@ == encoded@,
            out@ + kitty_from(chars@, from as int, cols, rows) == kitty_from(
                chars@,
                0,
                cols,
                rows,
            ),
        decreases n - from,
    {
        let ghost before = out@;
        let to: usize = if n - from > CHUNK_SIZE {
            from + CHUNK_SIZE
        } else {
            n
        };
        if from == 0 {
            push_str(&mut out, "\u{1b}_Ga=T,f=100,q=2,C=1,c=");
            push_number(&mut out, cols as u64);
            push_str(&mut out, ",r=");
            push_number(&mut out, rows as u64);
            push_str(&mut out, ",m=");
        } else {
            push_str(&mut out, "\u{1b}_Gm=");
        }
        if to < n {
            push_str(&mut out, "1;");
        } else {
            push_str(&mut out, "0;");
        }
        assert(out@ =~= before + chunk_header(from == 0, to < n, cols, rows));
        let chunk = cut(&chars, from, to);
        push_chars(&mut out, &chunk);
        push_str(&mut out, "\u{1b}\\");
        assert(out@ + kitty_from(chars@, to as int, cols, rows) =~= before + (chunk_header(
            from == 0,
            to < n,
            cols,
            rows,
        ) + chars@.subrange(from as int, to as int) + "\u{1b}\\"@ + kitty_from(
            chars@,
            to as int,
            cols,
            rows,
        )));
        from = to;
    }
    assert(out@ + kitty_from(chars@, from as int, cols, rows) =~= out@);
    string_of(&out)
}

/// Put a text's bytes behind others.
pub fn push_bytes(w: &mut Vec<u8>, s: &str)
    ensures
        final(w)@ == old(w)@ + encode_utf8(s@),
{
    let bytes = s.as_bytes();
    let mut i: usize = 0;
    while i < bytes.len()
        invariant
            i <= bytes@.len(),
            w@ == old(w)@ + bytes@.take(i as int),
        decreases bytes@.len() - i,
    {
        w.push(bytes[i]);
        i += 1;
        assert(old(w)@ + bytes@.take(i as int) =~= (old(w)@ + bytes@.take(i - 1)).push(
            bytes@[i - 1],
        ));
    }
    assert(bytes@.take(i as int) =~= bytes@);
}

/// Write the sequence that shows an image at the current cursor position, spanning
/// `cols`x`rows` terminal cells, to `w`. Of an image without bytes nothing is written.
pub fn emit_kitty_image(w: &mut Vec<u8>, png_data: &Vec<u8>, cols: u16, rows: u16)
    ensures
        final(w)@ == old(w)@ + encode_utf8(kitty_from(base64_text(png_data@), 0, cols, rows)),
        png_data@.len() == 0 ==> final(w)@ == old(w)@,
{
    let encoded = encode_base64(png_data.as_slice());
    let seq = kitty_sequence(encoded.as_str(), cols, rows);
    push_bytes(w, seq.as_str());
    if png_data.len() == 0 {
        assert(seq@ =~= seq![]);
        assert(encode_utf8(seq@) =~= seq![]);
        assert(old(w)@ + seq![] =~= old(w)@);
    }
}

/// The sequence that removes the images on the screen.
pub const KITTY_DELETE: &'static str = "\u{1b}_Ga=d,q=2;\u{1b}\\";

/// The sequence that removes all images, also those that are not shown.
pub const KITTY_DELETE_ALL: &'static str = "\u{1b}_Ga=d,d=A,q=2;\u{1b}\\";

/// The chunks of a text put together are the text; each has at most [`CHUNK_SIZE`] characters,
/// and only the last may have fewer.
pub proof fn law_chunks_carry_everything(s: Seq<char>)
    ensures
        chunks(s).flatten() == s,
        forall|i: int|
            0 <= i < chunks(s).len() ==> 0 < (#[trigger] chunks(s)[i]).len() <= CHUNK_SIZE,
        forall|i: int| 0 <= i < chunks(s).len() - 1 ==> (#[trigger] chunks(s)[i]).len() == CHUNK_SIZE,
    decreases s.len(),
{
    if s.len() == 0 {
        assert(chunks(s).flatten() =~= s);
    } else if s.len() <= CHUNK_SIZE {
        seq![s].lemma_flatten_one_element();
    } else {
        let head = s.take(CHUNK_SIZE as int);
        let rest = s.skip(CHUNK_SIZE as int);
        law_chunks_carry_everything(rest);
        assert(chunks(s).drop_first() =~= chunks(rest));
        assert(chunks(s).first() == head);
        assert(head + rest =~= s);
        assert forall|i: int| 0 < i < chunks(s).len() implies chunks(s)[i] == chunks(rest)[i - 1] by {}
    }
}

/// The sequence that shows an image is made of the chunks of its base64 text, in order: the
/// first with the metadata, each but the last saying that more follow.
pub proof fn law_kitty_sequence_of_chunks(s: Seq<char>, from: int, cols: u16, rows: u16)
    requires
        0 <= from < s.len(),
        from % CHUNK_SIZE as int == 0,
    ensures
        ({
            let parts = chunks(s.skip(from));
            &&& parts.len() > 0
            &&& kitty_from(s, from, cols, rows) == chunk_header(
                from == 0,
                parts.len() > 1,
                cols,
                rows,
            ) + parts[0] + "\u{1b}\\"@ + kitty_from(s, from + parts[0].len(), cols, rows)
            &&& parts.len() > 1 ==> chunks(s.skip(from + parts[0].len())) == parts.skip(1)
        }),
{
    let rest = s.skip(from);
    let parts = chunks(rest);
    if rest.len() > CHUNK_SIZE {
        law_chunks_carry_everything(rest.skip(CHUNK_SIZE as int));
        assert(rest.take(CHUNK_SIZE as int) =~= s.subrange(from, from + CHUNK_SIZE));
        assert(rest.skip(CHUNK_SIZE as int) =~= s.skip(from + CHUNK_SIZE));
        assert(parts[0] == rest.take(CHUNK_SIZE as int));
        assert(parts.skip(1) =~= chunks(rest.skip(CHUNK_SIZE as int)));
        assert(chunks(rest.skip(CHUNK_SIZE as int)).len() > 0);
    } else {
        assert(parts[0] == rest);
        assert(rest =~= s.subrange(from, s.len() as int));
    }
}

/// Which terminals are known for which protocol, by what their names hold, whatever the case.
pub proof fn law_known_terminals(program: Seq<char>)
    ensures
        ({
            let name = ascii_lowered(program);
            let kitty = within(name, "kitty"@) || within(name, "wezterm"@) || within(
                name,
                "konsole"@,
            );
            let sixel = within(name, "foot"@) || within(name, "mlterm"@) || within(name, "mintty"@)
                || within(name, "contour"@) || within(name, "ctx"@);
            &&& kitty ==> program_graphics(program) == Some(GraphicsProtocol::Kitty)
            &&& !kitty && sixel ==> program_graphics(program) == Some(GraphicsProtocol::Sixel)
            &&& !kitty && !sixel ==> program_graphics(program) is None
        }),
{
    let name = ascii_lowered(program);
    law_holds(name, "kitty"@);
    law_holds(name, "wezterm"@);
    law_holds(name, "konsole"@);
    law_holds(name, "foot"@);
    law_holds(name, "mlterm"@);
    law_holds(name, "mintty"@);
    law_holds(name, "contour"@);
    law_holds(name, "ctx"@);
}

/// Outside of multiplexers a terminal gets Sixel graphics where it is known for them, or where it is
/// not known and they are asked for; all others get Kitty's.
pub proof fn law_graphics(env: TerminalEnv)
    requires
        !env.tmux,
        env.term matches Some(t) ==> !multiplexer(t@),
    ensures
        ({
            let ghostty = env.term matches Some(t) && t@ == "xterm-ghostty"@;
            let known = match env.term_program {
                Some(p) => program_graphics(p@),
                None => None,
            };
            let asked = env.reed_sixel matches Some(v) && (v@ == "1"@ || ascii_lowered(v@)
                == "true"@);
            &&& ghostty ==> graphics_of(env) == GraphicsProtocol::Kitty
            &&& !ghostty && known == Some(GraphicsProtocol::Sixel) ==> graphics_of(env)
                == GraphicsProtocol::Sixel
            &&& !ghostty && known == Some(GraphicsProtocol::Kitty) ==> graphics_of(env)
                == GraphicsProtocol::Kitty
            &&& !ghostty && known is None && asked ==> graphics_of(env) == GraphicsProtocol::Sixel
            &&& !ghostty && known is None && !asked ==> graphics_of(env) == GraphicsProtocol::Kitty
        }),
{
}

/// A multiplexer is told by its name or by its variable; in one there are no graphics, but for
/// terminals that are known for Sixel.
pub proof fn law_multiplexers(env: TerminalEnv, a: Seq<char>)
    ensures
        ascii_lowered(a) == a ==> multiplexer("tmux"@ + a) && multiplexer("screen"@ + a),
        env.tmux && !(env.term_program is Some && !ghostty(env.term) && program_graphics(
            (env.term_program->0)@,
        ) == Some(GraphicsProtocol::Sixel)) ==> graphics_of(env) == GraphicsProtocol::NoGraphics,
        env.term is Some && multiplexer((env.term->0)@) && env.term_program is None ==> graphics_of(
            env,
        ) == GraphicsProtocol::NoGraphics,
{
    reveal_strlit("tmux");
    reveal_strlit("screen");
    if ascii_lowered(a) == a {
        let t = "tmux"@ + a;
        let s = "screen"@ + a;
        assert(ascii_lowered("tmux"@) =~= "tmux"@);
        assert(ascii_lowered("screen"@) =~= "screen"@);
        assert(ascii_lowered(t) =~= ascii_lowered("tmux"@) + ascii_lowered(a));
        assert(ascii_lowered(s) =~= ascii_lowered("screen"@) + ascii_lowered(a));
        assert(ascii_lowered(t).take(4) =~= "tmux"@);
        assert(ascii_lowered(s).take(6) =~= "screen"@);
    }
}

/// A chunk of Kitty's protocol holds at most 4096 characters.
pub proof fn law_chunk_size(s: Seq<char>)
    ensures
        s.len() > 4096 ==> chunks(s)[0] == s.take(4096),
        0 < s.len() <= 4096 ==> chunks(s) == seq![s],
        chunks(seq![]).len() == 0,
{
}

/// The first chunk says what is shown and in how many columns and rows; every chunk says whether
/// there are more.
pub proof fn law_chunk_headers(more: bool, cols: u16, rows: u16)
    ensures
        ({
            let last = if more {
                seq!['1', ';']
            } else {
                seq!['0', ';']
            };
            &&& chunk_header(true, more, cols, rows) == "\u{1b}_Ga=T,f=100,q=2,C=1,c="@ + decimal(
                cols as nat,
            ) + ",r="@ + decimal(rows as nat) + ",m="@ + last
            &&& chunk_header(false, more, cols, rows) == "\u{1b}_Gm="@ + last
        }),
{
    reveal_strlit("1;");
    reveal_strlit("0;");
    assert("1;"@ =~= seq!['1', ';']);
    assert("0;"@ =~= seq!['0', ';']);
}

/// Base64 reads back: every three bytes are the six bits of four characters, the highest first; of
/// one or two bytes at the end the first two or three characters hold the bits, and the others are
/// padding.
pub proof fn law_base64(data: Seq<u8>, g: int) -> (v: (int, int, int, int))
    requires
        0 <= g,
        3 * g < data.len(),
    ensures
        0 <= v.0 < 64 && 0 <= v.1 < 64 && 0 <= v.2 < 64 && 0 <= v.3 < 64,
        ({
            let text = base64_text(data);
            let digits = "ABCDEFGHIJKLMNOPQRSTUVWXYZabcdefghijklmnopqrstuvwxyz0123456789+/"@;
            let n = data.len() - 3 * g;
            &&& 4 * g + 4 <= text.len() && (n <= 3 ==> text.len() == 4 * g + 4)
            &&& text[4 * g] == digits[v.0] && text[4 * g + 1] == digits[v.1]
            &&& n >= 3 ==> {
                &&& text[4 * g + 2] == digits[v.2] && text[4 * g + 3] == digits[v.3]
                &&& data[3 * g] * 65536 + data[3 * g + 1] * 256 + data[3 * g + 2] == v.0 * 262144
                    + v.1 * 4096 + v.2 * 64 + v.3
            }
            &&& n == 2 ==> {
                &&& text[4 * g + 2] == digits[v.2] && text[4 * g + 3] == '='
                &&& data[3 * g] * 1024 + data[3 * g + 1] * 4 == v.0 * 4096 + v.1 * 64 + v.2
            }
            &&& n == 1 ==> {
                &&& text[4 * g + 2] == '=' && text[4 * g + 3] == '='
                &&& data[3 * g] * 16 == v.0 * 64 + v.1
            }
        }),
{
    let byte = |j: int|
        if j < data.len() {
            data[j] as int
        } else {
            0
        };
    let bits = three_bytes(data, 3 * g);
    lemma_six_bits(byte(3 * g), byte(3 * g + 1), byte(3 * g + 2));
    lemma_base64_at(data, g, 0);
    lemma_base64_at(data, g, 1);
    lemma_base64_at(data, g, 2);
    lemma_base64_at(data, g, 3);
    (bits / 262144, bits / 4096 % 64, bits / 64 % 64, bits % 64)
}

proof fn lemma_six_bits(a: int, b: int, c: int)
    requires
        0 <= a < 256,
        0 <= b < 256,
        0 <= c < 256,
    ensures
        ({
            let bits = a * 65536 + b * 256 + c;
            let v = (bits / 262144, bits / 4096 % 64, bits / 64 % 64, bits % 64);
            &&& 0 <= v.0 < 64 && 0 <= v.1 < 64 && 0 <= v.2 < 64 && 0 <= v.3 < 64
            &&& bits == v.0 * 262144 + v.1 * 4096 + v.2 * 64 + v.3
            &&& c == 0 ==> a * 1024 + b * 4 == v.0 * 4096 + v.1 * 64 + v.2
            &&& b == 0 && c == 0 ==> a * 16 == v.0 * 64 + v.1
        }),
{
    let bits = a * 65536 + b * 256 + c;
    let (p, q) = (a / 4, a % 4);
    let (r, s) = (b / 16, b % 16);
    let (t, u) = (c / 64, c % 64);
    let v1 = q * 16 + r;
    let v2 = s * 4 + t;
    assert(bits == p * 262144 + (v1 * 4096 + v2 * 64 + u));
    lemma_fundamental_div_mod_converse(bits, 262144, p, v1 * 4096 + v2 * 64 + u);
    lemma_fundamental_div_mod_converse(bits, 4096, p * 64 + v1, v2 * 64 + u);
    lemma_fundamental_div_mod_converse(p * 64 + v1, 64, p, v1);
    lemma_fundamental_div_mod_converse(bits, 64, p * 4096 + v1 * 64 + v2, u);
    lemma_fundamental_div_mod_converse(p * 4096 + v1 * 64 + v2, 64, p * 64 + v1, v2);
}

proof fn lemma_base64_at(data: Seq<u8>, g: int, i: int)
    requires
        0 <= g,
        3 * g < data.len(),
        0 <= i < 4,
    ensures
        4 * g + i < base64_text(data).len(),
        base64_text(data)[4 * g + i] == ({
            let bits = three_bytes(data, 3 * g);
            if 3 * g + i > data.len() {
                '='
            } else if i == 0 {
                BASE64@[bits / 262144]
            } else if i == 1 {
                BASE64@[bits / 4096 % 64]
            } else if i == 2 {
                BASE64@[bits / 64 % 64]
            } else {
                BASE64@[bits % 64]
            }
        }),
{
    let k = 4 * g + i;
    assert(k / 4 == g && k % 4 == i);
    assert(k < 4 * ((data.len() + 2) / 3));
}

/// The commands that remove images are Kitty sequences without an answer: one removes those on the
/// screen, the other those in the terminal's memory too.
pub proof fn law_removing_images()
    ensures
        KITTY_DELETE@ == "\u{1b}_Ga=d,q=2;\u{1b}\\"@,
        KITTY_DELETE_ALL@ == "\u{1b}_Ga=d,d=A,q=2;\u{1b}\\"@,
{
}

} // verus!
