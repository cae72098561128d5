//! The shader preview's pure parts: the fragment source umbriel compiles
//! from user code, the summary of a driver's compile log, the flip and
//! premultiply of a read-back frame, and the stand-in frames the shader
//! animates, and the notes the worker's events set. The GL worker itself
//! lives outside the library.

use vstd::prelude::*;

use crate::text::{
    append_chars, append_str, chars_of, join, join_chars, slice_chars, split_char, split_chars,
    starts_with, starts_with_chars, string_of, trim, trim_chars,
};

verus! {

/// Preview surface size. 16:9 so the panel keeps a window-like shape.
pub const PREVIEW_WIDTH: u32 = 384;
pub const PREVIEW_HEIGHT: u32 = 216;

/// The fragment prefix umbriel prepends to user code, verbatim. The
/// `#line 1` directives make driver errors carry user-relative line
/// numbers; keep the placement identical or errors point at the wrong
/// lines.
pub const PREAMBLE: &'static str = "precision highp float;
varying vec2 v_texcoord;
uniform sampler2D umbriel_texture;
uniform mat3 umbriel_sample_matrix;
uniform sampler2D umbriel_previous_texture;
uniform mat3 umbriel_previous_sample_matrix;
uniform float umbriel_progress;
uniform float umbriel_linear_progress;
uniform float umbriel_direction;
uniform vec2 umbriel_size;
uniform vec4 umbriel_random_seed;
#define umbriel_clamped_progress clamp(umbriel_progress, 0.0, 1.0)
vec4 umbriel_sample(vec2 uv) {
  if (any(lessThan(uv, vec2(0.0))) || any(greaterThan(uv, vec2(1.0)))) return vec4(0.0);
  vec2 p = (vec3(uv, 1.0) * umbriel_sample_matrix).xy;
  if (any(lessThan(p, vec2(0.0))) || any(greaterThan(p, vec2(1.0)))) return vec4(0.0);
  return texture2D(umbriel_texture, p);
}
#line 1
";

pub const PREVIOUS_SAMPLE: &'static str = "vec4 umbriel_sample_previous(vec2 uv) {
  if (any(lessThan(uv, vec2(0.0))) || any(greaterThan(uv, vec2(1.0)))) return vec4(0.0);
  vec2 p = (vec3(uv, 1.0) * umbriel_previous_sample_matrix).xy;
  if (any(lessThan(p, vec2(0.0))) || any(greaterThan(p, vec2(1.0)))) return vec4(0.0);
  return texture2D(umbriel_previous_texture, p);
}
#line 1
";

/// The suffix umbriel appends: main() runs the user function per pixel,
/// with `v_texcoord` in [0,1]², (0,0) at the window's top-left.
pub const SUFFIX: &'static str = "\nvoid main() { gl_FragColor = animation(v_texcoord); }\n";

/// Full fragment source as umbriel would compile it.
pub fn full_source(user_code: &str) -> (r: String)
    ensures
        r@ == PREAMBLE@ + PREVIOUS_SAMPLE@ + user_code@ + SUFFIX@,
{
    let mut out: Vec<char> = Vec::new();
    append_str(&mut out, PREAMBLE);
    append_str(&mut out, PREVIOUS_SAMPLE);
    append_str(&mut out, user_code);
    append_str(&mut out, SUFFIX);
    string_of(&out)
}

/// What the worker tells the UI.
pub enum PreviewEvent {
    /// The EGL/GLES context is live; panels can show a frame.
    Ready,
    /// Context creation failed; the preview is off until app restart.
    Unavailable(String),
    /// Compile result: None is clean, Some is a summarized GLSL error.
    Compiled(Option<String>),
    /// A rendered frame: RGBA8, rows top-down.
    Frame(u32, u32, Vec<u8>),
}

/// The preview note a worker event sets: why the preview is off, or the
/// compile result (empty when clean); other events leave it alone.
pub open spec fn spec_preview_note(event: PreviewEvent) -> Option<Seq<char>> {
    match event {
        PreviewEvent::Unavailable(err) => Some("Preview unavailable: "@ + err@),
        PreviewEvent::Compiled(problems) => Some(match problems {
            Some(err) => "GLSL error: "@ + err@,
            None => Seq::empty(),
        }),
        _ => None,
    }
}

pub fn preview_note(event: &PreviewEvent) -> (r: Option<String>)
    ensures
        match r {
            Some(n) => spec_preview_note(*event) == Some(n@),
            None => spec_preview_note(*event) is None,
        },
{
    match event {
        PreviewEvent::Unavailable(err) => {
            let mut v = chars_of("Preview unavailable: ");
            append_str(&mut v, err.as_str());
            Some(string_of(&v))
        },
        PreviewEvent::Compiled(problems) => match problems {
            Some(err) => {
                let mut v = chars_of("GLSL error: ");
                append_str(&mut v, err.as_str());
                Some(string_of(&v))
            },
            None => Some(String::new()),
        },
        _ => None,
    }
}

/// What the UI asks the preview worker to do: compile a shader's code, or
/// render at a scrub position (`P`, the position's type, is the caller's).
pub enum PreviewCommand<P> {
    SetSource(String),
    Render(P),
}

/// The code of the last `SetSource` of a burst.
pub open spec fn last_source<P>(cmds: Seq<PreviewCommand<P>>) -> Option<Seq<char>>
    decreases cmds.len(),
{
    if cmds.len() == 0 {
        None
    } else {
        match cmds.last() {
            PreviewCommand::SetSource(s) => Some(s@),
            PreviewCommand::Render(_) => last_source(cmds.drop_last()),
        }
    }
}

/// The position of the last `Render` of a burst.
pub open spec fn last_render<P>(cmds: Seq<PreviewCommand<P>>) -> Option<P>
    decreases cmds.len(),
{
    if cmds.len() == 0 {
        None
    } else {
        match cmds.last() {
            PreviewCommand::SetSource(_) => last_render(cmds.drop_last()),
            PreviewCommand::Render(p) => Some(p),
        }
    }
}

/// A burst of queued commands only needs its newest source and its newest
/// frame: older sources are superseded, and their errors would only flash
/// past. The worker applies the source first, so the frame uses it.
pub fn coalesce<P>(burst: Vec<PreviewCommand<P>>) -> (r: (Option<String>, Option<P>))
    ensures
        match r.0 {
            Some(s) => last_source(burst@) == Some(s@),
            None => last_source(burst@) is None,
        },
        r.1 == last_render(burst@),
{
    let ghost all = burst@;
    let mut rest = burst;
    let mut source: Option<String> = None;
    let mut render: Option<P> = None;
    while rest.len() > 0
        invariant
            match source {
                Some(s) => last_source(all) == Some(s@),
                None => last_source(all) == last_source(rest@),
            },
            match render {
                Some(p) => last_render(all) == Some(p),
                None => last_render(all) == last_render(rest@),
            },
        decreases rest.len(),
    {
        let ghost before = rest@;
        match rest.pop() {
            Some(cmd) => {
                assert(rest@ == before.drop_last() && cmd == before.last());
                match cmd {
                    PreviewCommand::SetSource(s) => {
                        if source.is_none() {
                            source = Some(s);
                        }
                    },
                    PreviewCommand::Render(p) => {
                        if render.is_none() {
                            render = Some(p);
                        }
                    },
                }
            },
            None => {},
        }
    }
    (source, render)
}

// ---------------------------------------------------------------------
// Compile-log summary.
// ---------------------------------------------------------------------

/// Bytes of a character in UTF-8.
pub open spec fn utf8_width(c: char) -> nat {
    if (c as u32) < 0x80 {
        1
    } else if (c as u32) < 0x800 {
        2
    } else if (c as u32) < 0x10000 {
        3
    } else {
        4
    }
}

/// Bytes of a text in UTF-8 (`str::len`).
pub open spec fn utf8_len(s: Seq<char>) -> nat
    decreases s.len(),
{
    if s.len() == 0 {
        0
    } else {
        utf8_len(s.drop_last()) + utf8_width(s.last())
    }
}

/// A log line worth keeping: not blank and not a driver `NOTE:`.
pub open spec fn kept(line: Seq<char>) -> bool {
    trim(line).len() > 0 && !starts_with(trim(line), "NOTE:"@)
}

/// The kept lines, trimmed, in order.
pub open spec fn kept_lines(lines: Seq<Seq<char>>) -> Seq<Seq<char>>
    decreases lines.len(),
{
    if lines.len() == 0 {
        seq![]
    } else if kept(lines.last()) {
        kept_lines(lines.drop_last()).push(trim(lines.last()))
    } else {
        kept_lines(lines.drop_last())
    }
}

/// At most the first two.
pub open spec fn first_two(s: Seq<Seq<char>>) -> Seq<Seq<char>> {
    if s.len() <= 2 {
        s
    } else {
        s.take(2)
    }
}

/// The first two kept lines of the log, joined with `" · "`. Splitting
/// at `'\n'` gives `str::lines` once each line is trimmed and blank ones
/// are dropped.
pub open spec fn log_head(log: Seq<char>) -> Seq<char> {
    join(first_two(kept_lines(split_char(log, '\n'))), " · "@)
}

/// `k` characters of `s` make the longest start of it that fits in 200
/// bytes: they fit, and one more would not.
pub open spec fn cut_fits(s: Seq<char>, k: int) -> bool {
    &&& 0 <= k <= s.len()
    &&& utf8_len(s.take(k)) <= 200
    &&& k < s.len() ==> utf8_len(s.take(k + 1)) > 200
}

pub open spec fn rejected_message() -> Seq<char> {
    "shader rejected by the driver"@
}

/// Driver logs are verbose; keep the first real lines so the note stays
/// one glance long: over 200 bytes it is cut at the last character
/// boundary within them and ends in `…`, and a log with nothing worth
/// showing gives a fixed note.
pub open spec fn spec_summarize_log(log: Seq<char>) -> Seq<char> {
    let head = log_head(log);
    if utf8_len(head) > 200 {
        head.take(choose|k: int| cut_fits(head, k)).push('…')
    } else if head.len() == 0 {
        rejected_message()
    } else {
        head
    }
}

/// The UTF-8 width of a character.
pub(crate) fn width_of(c: char) -> (w: u64)
    ensures
        w == utf8_width(c),
{
    if (c as u32) < 0x80 {
        1
    } else if (c as u32) < 0x800 {
        2
    } else if (c as u32) < 0x10000 {
        3
    } else {
        4
    }
}

pub(crate) proof fn lemma_utf8_len_grows(s: Seq<char>, j: int, k: int)
    requires
        0 <= j < k <= s.len(),
    ensures
        utf8_len(s.take(j)) < utf8_len(s.take(k)),
    decreases k - j,
{
    assert(s.take(k).drop_last() =~= s.take(k - 1));
    if j < k - 1 {
        lemma_utf8_len_grows(s, j, k - 1);
    }
}

/// Where to cut a text longer than 200 bytes: the number of its
/// characters that fit in 200 bytes; `None` when it is not longer.
fn cut_at_200(v: &Vec<char>) -> (r: Option<usize>)
    ensures
        r is Some <==> utf8_len(v@) > 200,
        r matches Some(k) ==> cut_fits(v@, k as int),
{
    let mut acc: u64 = 0;
    let mut k: usize = 0;
    while k < v.len()
        invariant
            k <= v.len(),
            acc == utf8_len(v@.take(k as int)),
            acc <= 200,
        decreases v.len() - k,
    {
        let w = width_of(v[k]);
        assert(v@.take(k + 1).drop_last() =~= v@.take(k as int));
        if acc + w > 200 {
            proof {
                assert(v@.take(v.len() as int) =~= v@);
                if k + 1 < v.len() {
                    lemma_utf8_len_grows(v@, k + 1, v.len() as int);
                }
            }
            return Some(k);
        }
        acc = acc + w;
        k = k + 1;
    }
    assert(v@.take(v.len() as int) =~= v@);
    None
}

/// The first two lines worth showing, joined.
fn log_head_of(log: &str) -> (r: Vec<char>)
    ensures
        r@ == log_head(log@),
{
    let v = chars_of(log);
    let pieces = split_chars(&v, '\n');
    let ghost lines = pieces@.map_values(|p: Vec<char>| p@);
    let note = chars_of("NOTE:");
    let mut picked: Vec<Vec<char>> = Vec::new();
    let mut k: usize = 0;
    while k < pieces.len()
        invariant
            lines == pieces@.map_values(|p: Vec<char>| p@),
            note@ == "NOTE:"@,
            k <= pieces.len(),
            picked@.map_values(|p: Vec<char>| p@) == first_two(kept_lines(lines.take(k as int))),
        decreases pieces.len() - k,
    {
        assert(lines.take(k + 1).drop_last() =~= lines.take(k as int));
        assert(lines[k as int] == pieces@[k as int]@);
        let ghost before = kept_lines(lines.take(k as int));
        if picked.len() < 2 {
            let line = trim_chars(&pieces[k]);
            if line.len() > 0 && !starts_with_chars(&line, &note) {
                let ghost prev = picked@.map_values(|p: Vec<char>| p@);
                picked.push(line);
                assert(picked@.map_values(|p: Vec<char>| p@) =~= prev.push(line@));
                assert(first_two(before.push(line@)) =~= before.push(line@));
            }
        } else {
            proof {
                let after = kept_lines(lines.take(k + 1));
                assert(after.take(2) =~= before.take(2));
            }
        }
        k = k + 1;
    }
    assert(lines.take(pieces.len() as int) =~= lines);
    assert(lines == split_char(log@, '\n'));
    join_chars(&picked, " · ")
}

pub fn summarize_log(log: &str) -> (r: String)
    ensures
        r@ == spec_summarize_log(log@),
{
    let head = log_head_of(log);
    match cut_at_200(&head) {
        Some(cut) => {
            proof {
                let j = choose|j: int| cut_fits(head@, j);
                assert(cut_fits(head@, j));
                if j < cut {
                    if j + 1 < cut {
                        lemma_utf8_len_grows(head@, j + 1, cut as int);
                    }
                } else if cut < j {
                    if cut + 1 < j {
                        lemma_utf8_len_grows(head@, cut + 1, j);
                    }
                }
            }
            let mut out = slice_chars(&head, 0, cut);
            out.push('…');
            string_of(&out)
        },
        None => {
            if head.len() == 0 {
                string_of(&chars_of("shader rejected by the driver"))
            } else {
                string_of(&head)
            }
        },
    }
}

// ---------------------------------------------------------------------
// Read-back frames.
// ---------------------------------------------------------------------

/// A colour channel scaled by alpha, rounded to nearest.
pub open spec fn premultiply(v: u8, a: u8) -> u8 {
    ((v as nat * a as nat + 127) / 255) as u8
}

/// Byte `c` of row `r` of the finished frame (rows of `stride` bytes,
/// four per pixel): it comes from row `height - 1 - r` of the read-back,
/// colour channels premultiplied by the pixel's alpha, alpha kept.
pub open spec fn readback_byte(pixels: Seq<u8>, stride: int, height: int, r: int, c: int) -> u8 {
    let src = (height - 1 - r) * stride + c;
    if c % 4 == 3 {
        pixels[src]
    } else {
        premultiply(pixels[src], pixels[src - c % 4 + 3])
    }
}

/// The whole finished frame: each byte of the first `height` rows as
/// `readback_byte` gives it, the bytes past them zero.
pub open spec fn readback_image(pixels: Seq<u8>, width: int, height: int) -> Seq<u8> {
    Seq::new(
        pixels.len(),
        |i: int|
            if i < height * (width * 4) {
                readback_byte(pixels, width * 4, height, i / (width * 4), i % (width * 4))
            } else {
                0
            },
    )
}

/// Every pixel's alpha byte is 255.
pub open spec fn fully_opaque(pixels: Seq<u8>) -> bool {
    forall|i: int| 0 <= i < pixels.len() && i % 4 == 3 ==> #[trigger] pixels[i] == 255
}

/// The first `height` rows of `stride` bytes in reverse order, the bytes
/// past them zero.
pub open spec fn flip_rows(pixels: Seq<u8>, stride: int, height: int) -> Seq<u8> {
    Seq::new(
        pixels.len(),
        |i: int|
            if i < height * stride {
                pixels[(height - 1 - i / stride) * stride + i % stride]
            } else {
                0
            },
    )
}

/// A position below `rows * stride` splits into its row and column.
proof fn lemma_index_parts(i: int, stride: int, rows: int)
    requires
        0 < stride,
        0 <= i < rows * stride,
    ensures
        0 <= i / stride < rows,
        0 <= i % stride < stride,
        i == (i / stride) * stride + i % stride,
{
    vstd::arithmetic::div_mod::lemma_fundamental_div_mod(i, stride);
    assert(i == (i / stride) * stride + i % stride) by (nonlinear_arith)
        requires
            i == stride * (i / stride) + i % stride;
    assert(0 <= i % stride < stride) by {
        vstd::arithmetic::div_mod::lemma_mod_pos_bound(i, stride);
    }
    assert(0 <= i / stride < rows) by (nonlinear_arith)
        requires
            i == (i / stride) * stride + i % stride,
            0 <= i % stride < stride,
            0 <= i < rows * stride,
            0 < stride;
}

/// Row and column give back their position.
proof fn lemma_parts_index(r: int, c: int, stride: int, rows: int)
    requires
        0 <= r < rows,
        0 <= c < stride,
    ensures
        (r * stride + c) / stride == r,
        (r * stride + c) % stride == c,
        0 <= r * stride + c < rows * stride,
{
    vstd::arithmetic::div_mod::lemma_fundamental_div_mod_converse(r * stride + c, stride, r, c);
    lemma_row_bound(r, c, stride, rows);
}

/// In rows of whole pixels, a byte's channel is its column's channel.
proof fn lemma_channel(r: int, c: int, width: int)
    requires
        0 <= r,
        0 <= c < width * 4,
    ensures
        (r * (width * 4) + c) % 4 == c % 4,
        0 <= c - c % 4 + 3 < width * 4,
{
    assert(r * (width * 4) == 4 * (r * width)) by (nonlinear_arith);
    vstd::arithmetic::div_mod::lemma_mod_multiples_vanish(r * width, c, 4);
    vstd::arithmetic::div_mod::lemma_fundamental_div_mod(c, 4);
    assert(c / 4 < width) by (nonlinear_arith)
        requires
            c == 4 * (c / 4) + c % 4,
            0 <= c % 4 < 4,
            c < width * 4;
}

proof fn lemma_premultiply_opaque(v: u8)
    ensures
        premultiply(v, 255) == v,
{
    assert((v as nat * 255 + 127) / 255 == v as nat) by (nonlinear_arith)
        requires
            v <= 255;
}

/// A fully opaque frame of exactly `height` rows is only flipped.
proof fn lemma_readback_opaque_flips(pixels: Seq<u8>, width: nat, height: nat)
    requires
        pixels.len() == height * (width * 4),
        fully_opaque(pixels),
    ensures
        readback_image(pixels, width as int, height as int) == flip_rows(pixels, width as int * 4, height as int),
{
    let stride = width * 4;
    let a = readback_image(pixels, width as int, height as int);
    let f = flip_rows(pixels, stride as int, height as int);
    assert forall|i: int| 0 <= i < pixels.len() implies a[i] == f[i] by {
        lemma_index_parts(i, stride as int, height as int);
        let r = i / stride as int;
        let c = i % stride as int;
        let src = (height - 1 - r) * stride + c;
        lemma_parts_index(height - 1 - r, c, stride as int, height as int);
        lemma_channel(height - 1 - r, c, width as int);
        if c % 4 != 3 {
            let al = src - c % 4 + 3;
            lemma_parts_index(height - 1 - r, c - c % 4 + 3, stride as int, height as int);
            lemma_channel(height - 1 - r, c - c % 4 + 3, width as int);
            assert(pixels[al] == 255);
            lemma_premultiply_opaque(pixels[src]);
        }
    }
    assert(a =~= f);
}

/// Of a fully opaque frame of exactly `height` rows, the finished frame
/// is the read-back with its rows in reverse order, colours untouched;
/// so finishing it twice gives back the read-back.
pub proof fn law_readback_opaque_flip_twice(pixels: Seq<u8>, width: nat, height: nat)
    requires
        pixels.len() == width * height * 4,
        fully_opaque(pixels),
    ensures
        readback_image(pixels, width as int, height as int) == flip_rows(pixels, width as int * 4, height as int),
        readback_image(readback_image(pixels, width as int, height as int), width as int, height as int)
            == pixels,
{
    let stride = width * 4;
    assert(pixels.len() == height * stride) by (nonlinear_arith)
        requires
            pixels.len() == width * height * 4,
            stride == width * 4;
    lemma_readback_opaque_flips(pixels, width, height);
    let f = flip_rows(pixels, stride as int, height as int);
    assert(fully_opaque(f)) by {
        assert forall|i: int| 0 <= i < f.len() && i % 4 == 3 implies #[trigger] f[i] == 255 by {
            lemma_index_parts(i, stride as int, height as int);
            let r = i / stride as int;
            let c = i % stride as int;
            lemma_channel(r, c, width as int);
            lemma_parts_index(height - 1 - r, c, stride as int, height as int);
            lemma_channel(height - 1 - r, c, width as int);
        }
    }
    lemma_readback_opaque_flips(f, width, height);
    let g = flip_rows(f, stride as int, height as int);
    assert forall|i: int| 0 <= i < pixels.len() implies g[i] == pixels[i] by {
        lemma_index_parts(i, stride as int, height as int);
        let r = i / stride as int;
        let c = i % stride as int;
        lemma_parts_index(height - 1 - r, c, stride as int, height as int);
    }
    assert(g =~= pixels);
}

proof fn lemma_rows_apart(r1: int, c1: int, r2: int, c2: int, stride: int)
    requires
        0 <= r1,
        0 <= r2,
        0 <= c1 < stride,
        0 <= c2 < stride,
        r1 != r2,
    ensures
        r1 * stride + c1 != r2 * stride + c2,
{
    if r1 < r2 {
        assert((r1 + 1) * stride <= r2 * stride) by (nonlinear_arith)
            requires
                r1 + 1 <= r2,
                0 < stride;
        assert((r1 + 1) * stride == r1 * stride + stride) by (nonlinear_arith);
    } else {
        assert((r2 + 1) * stride <= r1 * stride) by (nonlinear_arith)
            requires
                r2 + 1 <= r1,
                0 < stride;
        assert((r2 + 1) * stride == r2 * stride + stride) by (nonlinear_arith);
    }
}

proof fn lemma_row_bound(r: int, c: int, stride: int, rows: int)
    requires
        0 <= r < rows,
        0 <= c < stride,
    ensures
        0 <= r * stride + c < rows * stride,
        r * stride + stride <= rows * stride,
{
    assert((r + 1) * stride <= rows * stride) by (nonlinear_arith)
        requires
            r + 1 <= rows,
            0 < stride;
    assert((r + 1) * stride == r * stride + stride) by (nonlinear_arith);
    assert(0 <= r * stride) by (nonlinear_arith)
        requires
            0 <= r,
            0 < stride;
}

proof fn lemma_row_end(r: int, stride: int, rows: int)
    requires
        0 <= r < rows,
        0 <= stride,
    ensures
        0 <= r * stride,
        r * stride + stride <= rows * stride,
{
    assert((r + 1) * stride <= rows * stride) by (nonlinear_arith)
        requires
            r + 1 <= rows,
            0 <= stride;
    assert((r + 1) * stride == r * stride + stride) by (nonlinear_arith);
    assert(0 <= r * stride) by (nonlinear_arith)
        requires
            0 <= r,
            0 <= stride;
}

/// One pixel premultiplied.
fn premultiplied(v: u8, a: u8) -> (r: u8)
    ensures
        r == premultiply(v, a),
{
    assert((v as u16) * (a as u16) <= 65025) by (nonlinear_arith)
        requires
            v <= 255,
            a <= 255;
    let scaled: u16 = ((v as u16) * (a as u16) + 127) / 255;
    scaled as u8
}

/// glReadPixels returns bottom-up rows with straight alpha; the UI wants
/// top-down premultiplied images: flip the rows and scale RGB by A in one
/// pass. Bytes past `width * height` pixels stay zero.
pub fn finalize_readback(pixels: Vec<u8>, width: usize, height: usize) -> (out: Vec<u8>)
    requires
        width * 4 <= usize::MAX,
        width * height * 4 <= pixels.len(),
    ensures
        out.len() == pixels.len(),
        forall|r: int, c: int|
            0 <= r < height && 0 <= c < width * 4 ==> #[trigger] out@[r * (width * 4) + c]
                == readback_byte(pixels@, width * 4, height as int, r, c),
        forall|i: int| height * (width * 4) <= i < out.len() ==> out@[i] == 0,
        out@ == readback_image(pixels@, width as int, height as int),
{
    let stride: usize = width * 4;
    let ghost len = pixels.len() as int;
    assert(height * stride <= len) by (nonlinear_arith)
        requires
            stride == width * 4,
            width * height * 4 <= len;
    let mut out: Vec<u8> = vec![0u8; pixels.len()];
    let mut y: usize = 0;
    while y < height
        invariant
            stride == width * 4,
            len == pixels.len(),
            height * stride <= len,
            out.len() == len,
            y <= height,
            forall|r: int, c: int|
                height - y <= r < height && 0 <= c < stride ==> #[trigger] out@[r * stride + c]
                    == readback_byte(pixels@, stride as int, height as int, r, c),
            forall|i: int|
                0 <= i < len && (i < (height - y) * stride || i >= height * stride) ==> #[trigger] out@[i]
                    == 0,
        decreases height - y,
    {
        let flipped: usize = height - 1 - y;
        proof {
            lemma_row_end(flipped as int, stride as int, height as int);
            lemma_row_end(y as int, stride as int, height as int);
            assert(flipped * stride + stride == (height - y) * stride) by (nonlinear_arith)
                requires
                    flipped == height - 1 - y;
        }
        let src_base: usize = y * stride;
        let dst_base: usize = flipped * stride;
        let mut x: usize = 0;
        while x < width
            invariant
                stride == width * 4,
                len == pixels.len(),
                height * stride <= len,
                out.len() == len,
                y < height,
                flipped == height - 1 - y,
                src_base == y * stride,
                dst_base == flipped * stride,
                dst_base + stride <= height * stride,
                src_base + stride <= height * stride,
                x <= width,
                forall|r: int, c: int|
                    ((height - y <= r < height && 0 <= c < stride) || (r == flipped && 0 <= c < 4 * x))
                        ==> #[trigger] out@[r * stride + c] == readback_byte(
                        pixels@,
                        stride as int,
                        height as int,
                        r,
                        c,
                    ),
                dst_base + stride == (height - y) * stride,
                forall|i: int|
                    0 <= i < len && (i < dst_base || i >= height * stride || (dst_base + 4 * x <= i
                        && i < dst_base + stride)) ==> #[trigger] out@[i] == 0,
            decreases width - x,
        {
            let s: usize = src_base + 4 * x;
            let d: usize = dst_base + 4 * x;
            let alpha = pixels[s + 3];
            let v0 = premultiplied(pixels[s], alpha);
            let v1 = premultiplied(pixels[s + 1], alpha);
            let v2 = premultiplied(pixels[s + 2], alpha);
            let ghost before = out@;
            out.set(d, v0);
            out.set(d + 1, v1);
            out.set(d + 2, v2);
            out.set(d + 3, alpha);
            proof {
                assert((height - 1 - flipped) * stride == src_base);
                assert forall|k: int| 0 <= k < 4 implies #[trigger] out@[d + k] == readback_byte(
                    pixels@,
                    stride as int,
                    height as int,
                    flipped as int,
                    4 * x + k,
                ) by {
                    assert((4 * x + k) % 4 == k);
                }
                assert forall|r: int, c: int|
                    ((height - y <= r < height && 0 <= c < stride) || (r == flipped && 0 <= c < 4 * (x
                        + 1))) implies #[trigger] out@[r * stride + c] == readback_byte(
                    pixels@,
                    stride as int,
                    height as int,
                    r,
                    c,
                ) by {
                    if r == flipped {
                        if c >= 4 * x {
                            assert(out@[d + (c - 4 * x)] == out@[r * stride + c]);
                        }
                    } else {
                        lemma_rows_apart(r, c, flipped as int, 4 * x, stride as int);
                        lemma_rows_apart(r, c, flipped as int, 4 * x + 1, stride as int);
                        lemma_rows_apart(r, c, flipped as int, 4 * x + 2, stride as int);
                        lemma_rows_apart(r, c, flipped as int, 4 * x + 3, stride as int);
                        lemma_row_bound(r, c, stride as int, height as int);
                        assert(out@[r * stride + c] == before[r * stride + c]);
                    }
                }
            }
            x = x + 1;
        }
        proof {
            assert(dst_base == (height - (y + 1)) * stride);
            assert forall|r: int, c: int|
                height - (y + 1) <= r < height && 0 <= c < stride implies #[trigger] out@[r * stride + c]
                    == readback_byte(pixels@, stride as int, height as int, r, c) by {
                if r == flipped {
                    assert(c < 4 * x);
                }
            }
        }
        y = y + 1;
    }
    proof {
        assert forall|r: int, c: int|
            0 <= r < height && 0 <= c < width * 4 implies #[trigger] out@[r * (width * 4) + c]
                == readback_byte(pixels@, width * 4, height as int, r, c) by {
            assert(out@[r * stride + c] == readback_byte(pixels@, stride as int, height as int, r, c));
        }
        if stride > 0 {
            assert forall|i: int| 0 <= i < len implies out@[i] == readback_image(
                pixels@,
                width as int,
                height as int,
            )[i] by {
                if i < height * stride {
                    lemma_index_parts(i, stride as int, height as int);
                    let r = i / stride as int;
                    let c = i % stride as int;
                    assert(out@[r * stride + c] == readback_byte(pixels@, stride as int, height as int, r, c));
                }
            }
        } else {
            assert(height * stride == 0);
        }
        assert(out@ =~= readback_image(pixels@, width as int, height as int));
    }
    out
}

// ---------------------------------------------------------------------
// Stand-in frames.
// ---------------------------------------------------------------------

/// Pixel rectangle, exclusive at x1/y1.
#[derive(Clone, Copy, Debug, PartialEq, Eq, Structural)]
pub struct Rect {
    pub x0: i32,
    pub y0: i32,
    pub x1: i32,
    pub y1: i32,
}

pub fn r(x0: i32, y0: i32, x1: i32, y1: i32) -> (rect: Rect)
    ensures
        rect == (Rect { x0, y0, x1, y1 }),
{
    Rect { x0, y0, x1, y1 }
}

/// `i32::clamp(v, lo, hi)`.
pub open spec fn clamp(v: int, lo: int, hi: int) -> int {
    if v < lo {
        lo
    } else if v > hi {
        hi
    } else {
        v
    }
}

fn clamp_i32(v: i32, lo: i32, hi: i32) -> (c: i32)
    requires
        lo <= hi,
    ensures
        c == clamp(v as int, lo as int, hi as int),
{
    if v < lo {
        lo
    } else if v > hi {
        hi
    } else {
        v
    }
}

/// Column and row of the pixel that byte `i` belongs to, `w` pixels a row.
pub open spec fn px_x(i: int, w: int) -> int {
    (i / 4) % w
}

pub open spec fn px_y(i: int, w: int) -> int {
    (i / 4) / w
}

/// Byte `i` of a `w` by `h` RGBA frame lies in the rectangle (clamped to
/// the frame).
pub open spec fn covered(rect: Rect, w: int, h: int, i: int) -> bool {
    &&& w > 0
    &&& 0 <= i
    &&& clamp(rect.x0 as int, 0, w) <= px_x(i, w) < clamp(rect.x1 as int, 0, w)
    &&& clamp(rect.y0 as int, 0, h) <= px_y(i, w) < clamp(rect.y1 as int, 0, h)
}

/// The frame with the rectangle painted in `rgba`.
pub open spec fn filled(buf: Seq<u8>, w: int, h: int, rect: Rect, rgba: Seq<u8>) -> Seq<u8> {
    Seq::new(buf.len(), |i: int| if covered(rect, w, h, i) { rgba[i % 4] } else { buf[i] })
}

/// Pixels of the rectangle painted so far: rows above `cy`, and row `cy`
/// left of `cx`.
pub open spec fn painted_so_far(rect: Rect, w: int, h: int, i: int, cx: int, cy: int) -> bool {
    covered(rect, w, h, i) && (px_y(i, w) < cy || (px_y(i, w) == cy && px_x(i, w) < cx))
}

pub open spec fn partly_filled(
    buf: Seq<u8>,
    w: int,
    h: int,
    rect: Rect,
    rgba: Seq<u8>,
    cx: int,
    cy: int,
) -> Seq<u8> {
    Seq::new(
        buf.len(),
        |i: int| if painted_so_far(rect, w, h, i, cx, cy) { rgba[i % 4] } else { buf[i] },
    )
}

proof fn lemma_pixel_of(i: int, w: int, x: int, y: int, k: int)
    requires
        w > 0,
        0 <= x < w,
        0 <= y,
        0 <= k < 4,
        i == (y * w + x) * 4 + k,
    ensures
        i / 4 == y * w + x,
        i % 4 == k,
        px_x(i, w) == x,
        px_y(i, w) == y,
{
    assert(0 <= y * w) by (nonlinear_arith)
        requires
            0 <= y,
            0 < w;
    vstd::arithmetic::div_mod::lemma_fundamental_div_mod_converse(i, 4, y * w + x, k);
    vstd::arithmetic::div_mod::lemma_fundamental_div_mod_converse(y * w + x, w, y, x);
}

proof fn lemma_pixel_split(i: int, w: int)
    requires
        w > 0,
        0 <= i,
    ensures
        i == (px_y(i, w) * w + px_x(i, w)) * 4 + i % 4,
        0 <= px_x(i, w) < w,
        0 <= px_y(i, w),
        0 <= i % 4 < 4,
{
    vstd::arithmetic::div_mod::lemma_fundamental_div_mod(i, 4);
    vstd::arithmetic::div_mod::lemma_fundamental_div_mod(i / 4, w);
    assert(w * ((i / 4) / w) == ((i / 4) / w) * w) by (nonlinear_arith);
    assert((i / 4) / w >= 0) by (nonlinear_arith)
        requires
            i / 4 >= 0,
            w > 0;
}

/// Paint `rect` (clamped to the `w` by `h` frame) in `rgba`.
pub fn fill_rect(buf: &mut Vec<u8>, w: i32, h: i32, rect: Rect, rgba: [u8; 4])
    requires
        0 <= w,
        0 <= h,
        w * h * 4 <= i32::MAX,
        w * h * 4 <= old(buf).len(),
    ensures
        final(buf)@ == filled(old(buf)@, w as int, h as int, rect, rgba@),
{
    let x0 = clamp_i32(rect.x0, 0, w);
    let x1 = clamp_i32(rect.x1, 0, w);
    let y0 = clamp_i32(rect.y0, 0, h);
    let y1 = clamp_i32(rect.y1, 0, h);
    let ghost orig = buf@;
    let ghost wi = w as int;
    let ghost hi = h as int;
    if x0 >= x1 || y0 >= y1 {
        proof {
            assert(buf@ =~= filled(orig, wi, hi, rect, rgba@));
        }
        return;
    }
    assert(buf@ =~= partly_filled(orig, wi, hi, rect, rgba@, x0 as int, y0 as int)) by {
        assert forall|i: int| 0 <= i < orig.len() implies !painted_so_far(rect, wi, hi, i, x0 as int, y0 as int) by {
            if covered(rect, wi, hi, i) {
            }
        }
    }
    let mut y: i32 = y0;
    while y < y1
        invariant
            0 <= x0 < x1 <= w,
            0 <= y0 < y1 <= h,
            wi == w,
            hi == h,
            x0 == clamp(rect.x0 as int, 0, wi),
            x1 == clamp(rect.x1 as int, 0, wi),
            y0 == clamp(rect.y0 as int, 0, hi),
            y1 == clamp(rect.y1 as int, 0, hi),
            w * h * 4 <= i32::MAX,
            w * h * 4 <= orig.len(),
            y0 <= y <= y1,
            buf@.len() == orig.len(),
            buf@ == partly_filled(orig, wi, hi, rect, rgba@, x0 as int, y as int),
        decreases y1 - y,
    {
        assert(y * w * 4 + w * 4 <= w * h * 4) by (nonlinear_arith)
            requires
                0 <= y < h,
                0 <= w;
        assert(0 <= y * w * 4) by (nonlinear_arith)
            requires
                0 <= y,
                0 <= w;
        let base = (y * w * 4) as usize;
        let mut x: i32 = x0;
        while x < x1
            invariant
                0 <= x0 < x1 <= w,
                0 <= y0 < y1 <= h,
                wi == w,
                hi == h,
                x0 == clamp(rect.x0 as int, 0, wi),
                x1 == clamp(rect.x1 as int, 0, wi),
                y0 == clamp(rect.y0 as int, 0, hi),
                y1 == clamp(rect.y1 as int, 0, hi),
                w * h * 4 <= orig.len(),
                w * h * 4 <= i32::MAX,
                y0 <= y < y1,
                base == y * w * 4,
                base + w * 4 <= w * h * 4,
                x0 <= x <= x1,
                buf@.len() == orig.len(),
                buf@ == partly_filled(orig, wi, hi, rect, rgba@, x as int, y as int),
            decreases x1 - x,
        {
            assert(w * 4 <= w * h * 4) by (nonlinear_arith)
                requires
                    1 <= h,
                    0 <= w;
            let at: usize = base + (x * 4) as usize;
            let ghost before = buf@;
            buf.set(at, rgba[0]);
            buf.set(at + 1, rgba[1]);
            buf.set(at + 2, rgba[2]);
            buf.set(at + 3, rgba[3]);
            proof {
                let next = partly_filled(orig, wi, hi, rect, rgba@, x + 1, y as int);
                assert forall|i: int| 0 <= i < buf@.len() implies buf@[i] == next[i] by {
                    lemma_pixel_split(i, wi);
                    let px = px_x(i, wi);
                    let py = px_y(i, wi);
                    if py == y && px == x {
                        lemma_pixel_of(i, wi, x as int, y as int, i % 4);
                        assert(i == at + i % 4);
                    } else {
                        if at <= i < at + 4 {
                            lemma_pixel_of(i, wi, x as int, y as int, i - at);
                        }
                        assert(buf@[i] == before[i]);
                    }
                }
                assert(buf@ =~= next);
            }
            x = x + 1;
        }
        proof {
            let next = partly_filled(orig, wi, hi, rect, rgba@, x0 as int, y + 1);
            assert forall|i: int| 0 <= i < buf@.len() implies buf@[i] == next[i] by {
                lemma_pixel_split(i, wi);
            }
            assert(buf@ =~= next);
        }
        y = y + 1;
    }
    proof {
        assert forall|i: int| 0 <= i < buf@.len() implies buf@[i] == filled(orig, wi, hi, rect, rgba@)[i] by {
            if covered(rect, wi, hi, i) {
                lemma_pixel_split(i, wi);
            }
        }
        assert(buf@ =~= filled(orig, wi, hi, rect, rgba@));
    }
}

/// The layout numbers of the stand-in frames that come from fractions of
/// the frame size: the widths of the six text lines and the two accent
/// blocks.
pub struct FrameLayout {
    pub text_widths: [i32; 6],
    pub accent_current: Rect,
    pub accent_previous: Rect,
}

/// The frame after painting each `(rect, rgba)` in order.
pub open spec fn paint_all(buf: Seq<u8>, w: int, h: int, ops: Seq<(Rect, Seq<u8>)>) -> Seq<u8>
    decreases ops.len(),
{
    if ops.len() == 0 {
        buf
    } else {
        filled(paint_all(buf, w, h, ops.drop_last()), w, h, ops.last().0, ops.last().1)
    }
}

pub open spec fn ops_view(ops: Seq<(Rect, [u8; 4])>) -> Seq<(Rect, Seq<u8>)> {
    ops.map_values(|o: (Rect, [u8; 4])| (o.0, o.1@))
}

pub open spec fn rect(x0: int, y0: int, x1: int, y1: int) -> Rect {
    Rect { x0: x0 as i32, y0: y0 as i32, x1: x1 as i32, y1: y1 as i32 }
}

/// The current frame: background, titlebar with three coloured dots, six
/// text lines of the given widths, and the accent block.
pub open spec fn current_ops(w: int, h: int, l: FrameLayout) -> Seq<(Rect, Seq<u8>)> {
    seq![
        (rect(0, 0, w, h), seq![36u8, 39, 48, 255]),
        (rect(10, 10, w - 10, 34), seq![44u8, 47, 58, 255]),
        (rect(18, 18, 26, 26), seq![224u8, 108, 117, 255]),
        (rect(34, 18, 42, 26), seq![229u8, 181, 103, 255]),
        (rect(50, 18, 58, 26), seq![152u8, 195, 121, 255]),
        (rect(24, 50, 24 + l.text_widths[0], 58), seq![154u8, 160, 174, 255]),
        (rect(24, 68, 24 + l.text_widths[1], 76), seq![154u8, 160, 174, 255]),
        (rect(24, 86, 24 + l.text_widths[2], 94), seq![154u8, 160, 174, 255]),
        (rect(24, 104, 24 + l.text_widths[3], 112), seq![154u8, 160, 174, 255]),
        (rect(24, 122, 24 + l.text_widths[4], 130), seq![154u8, 160, 174, 255]),
        (rect(24, 140, 24 + l.text_widths[5], 148), seq![154u8, 160, 174, 255]),
        (l.accent_current, seq![124u8, 154, 255, 255]),
    ]
}

/// The previous frame: a dimmer variant with its dots at half intensity,
/// its text lines lower, and its accent block on the other side.
pub open spec fn previous_ops(w: int, h: int, l: FrameLayout) -> Seq<(Rect, Seq<u8>)> {
    seq![
        (rect(0, 0, w, h), seq![30u8, 33, 41, 255]),
        (rect(10, 10, w - 10, 34), seq![50u8, 54, 66, 255]),
        (rect(18, 18, 26, 26), seq![112u8, 54, 58, 255]),
        (rect(34, 18, 42, 26), seq![114u8, 90, 51, 255]),
        (rect(50, 18, 58, 26), seq![76u8, 97, 60, 255]),
        (rect(24, 56, 24 + l.text_widths[0], 64), seq![122u8, 128, 144, 255]),
        (rect(24, 74, 24 + l.text_widths[1], 82), seq![122u8, 128, 144, 255]),
        (rect(24, 92, 24 + l.text_widths[2], 100), seq![122u8, 128, 144, 255]),
        (rect(24, 110, 24 + l.text_widths[3], 118), seq![122u8, 128, 144, 255]),
        (rect(24, 128, 24 + l.text_widths[4], 136), seq![122u8, 128, 144, 255]),
        (rect(24, 146, 24 + l.text_widths[5], 154), seq![122u8, 128, 144, 255]),
        (l.accent_previous, seq![152u8, 195, 121, 255]),
    ]
}

/// Paint every `(rect, rgba)` in order.
fn paint_each(buf: &mut Vec<u8>, w: i32, h: i32, ops: &Vec<(Rect, [u8; 4])>)
    requires
        0 <= w,
        0 <= h,
        w * h * 4 <= i32::MAX,
        w * h * 4 <= old(buf).len(),
    ensures
        final(buf)@ == paint_all(old(buf)@, w as int, h as int, ops_view(ops@)),
{
    let ghost start = buf@;
    let ghost all = ops_view(ops@);
    let mut k: usize = 0;
    while k < ops.len()
        invariant
            0 <= w,
            0 <= h,
            w * h * 4 <= i32::MAX,
            w * h * 4 <= start.len(),
            all == ops_view(ops@),
            k <= ops.len(),
            buf@.len() == start.len(),
            buf@ == paint_all(start, w as int, h as int, all.take(k as int)),
        decreases ops.len() - k,
    {
        assert(all.take(k + 1).drop_last() =~= all.take(k as int));
        fill_rect(buf, w, h, ops[k].0, ops[k].1);
        k = k + 1;
    }
    assert(all.take(ops.len() as int) =~= all);
}

/// A zeroed `len`-byte frame.
pub open spec fn zeros(len: nat) -> Seq<u8> {
    Seq::new(len, |i: int| 0u8)
}

/// The stand-in "window" the shader animates: a titlebar with dots, text
/// lines, and an accent block, so motion and fades are all legible. The
/// previous frame is a visibly different variant, making crossfades and
/// `umbriel_sample_previous` readable.
pub fn test_frames(width: u32, height: u32, layout: &FrameLayout) -> (r: (Vec<u8>, Vec<u8>))
    requires
        width * height * 4 <= i32::MAX,
        width <= i32::MAX,
        height <= i32::MAX,
        forall|i: int|
            0 <= i < 6 ==> -48 <= #[trigger] layout.text_widths@[i] <= width
                && layout.text_widths@[i] <= i32::MAX - 24,
    ensures
        r.0@ == paint_all(zeros((width * height * 4) as nat), width as int, height as int, current_ops(width as int, height as int, *layout)),
        r.1@ == paint_all(zeros((width * height * 4) as nat), width as int, height as int, previous_ops(width as int, height as int, *layout)),
{
    let n: usize = (width * height * 4) as usize;
    let mut current: Vec<u8> = vec![0u8; n];
    let mut previous: Vec<u8> = vec![0u8; n];
    assert(current@ =~= zeros(n as nat));
    assert(previous@ =~= zeros(n as nat));
    let w = width as i32;
    let h = height as i32;
    let tw = layout.text_widths;
    assert(tw@ == layout.text_widths@);
    let t0 = tw[0];
    let t1 = tw[1];
    let t2 = tw[2];
    let t3 = tw[3];
    let t4 = tw[4];
    let t5 = tw[5];
    assert(-48 <= t0 <= i32::MAX - 24 && -48 <= t1 <= i32::MAX - 24 && -48 <= t2 <= i32::MAX - 24);
    assert(-48 <= t3 <= i32::MAX - 24 && -48 <= t4 <= i32::MAX - 24 && -48 <= t5 <= i32::MAX - 24);
    let mut cur_ops: Vec<(Rect, [u8; 4])> = Vec::new();
    cur_ops.push((r(0, 0, w, h), [36, 39, 48, 255]));
    cur_ops.push((r(10, 10, w - 10, 34), [44, 47, 58, 255]));
    cur_ops.push((r(18, 18, 26, 26), [224, 108, 117, 255]));
    cur_ops.push((r(34, 18, 42, 26), [229, 181, 103, 255]));
    cur_ops.push((r(50, 18, 58, 26), [152, 195, 121, 255]));
    cur_ops.push((r(24, 50, 24 + t0, 58), [154, 160, 174, 255]));
    cur_ops.push((r(24, 68, 24 + t1, 76), [154, 160, 174, 255]));
    cur_ops.push((r(24, 86, 24 + t2, 94), [154, 160, 174, 255]));
    cur_ops.push((r(24, 104, 24 + t3, 112), [154, 160, 174, 255]));
    cur_ops.push((r(24, 122, 24 + t4, 130), [154, 160, 174, 255]));
    cur_ops.push((r(24, 140, 24 + t5, 148), [154, 160, 174, 255]));
    cur_ops.push((layout.accent_current, [124, 154, 255, 255]));
    let mut prev_ops: Vec<(Rect, [u8; 4])> = Vec::new();
    prev_ops.push((r(0, 0, w, h), [30, 33, 41, 255]));
    prev_ops.push((r(10, 10, w - 10, 34), [50, 54, 66, 255]));
    prev_ops.push((r(18, 18, 26, 26), [112, 54, 58, 255]));
    prev_ops.push((r(34, 18, 42, 26), [114, 90, 51, 255]));
    prev_ops.push((r(50, 18, 58, 26), [76, 97, 60, 255]));
    prev_ops.push((r(24, 56, 24 + t0, 64), [122, 128, 144, 255]));
    prev_ops.push((r(24, 74, 24 + t1, 82), [122, 128, 144, 255]));
    prev_ops.push((r(24, 92, 24 + t2, 100), [122, 128, 144, 255]));
    prev_ops.push((r(24, 110, 24 + t3, 118), [122, 128, 144, 255]));
    prev_ops.push((r(24, 128, 24 + t4, 136), [122, 128, 144, 255]));
    prev_ops.push((r(24, 146, 24 + t5, 154), [122, 128, 144, 255]));
    prev_ops.push((layout.accent_previous, [152, 195, 121, 255]));
    assert(ops_view(cur_ops@) =~~= current_ops(width as int, height as int, *layout));
    assert(ops_view(prev_ops@) =~~= previous_ops(width as int, height as int, *layout));
    paint_each(&mut current, w, h, &cur_ops);
    paint_each(&mut previous, w, h, &prev_ops);
    (current, previous)
}

} // verus!
