//! System-font labels: the native label-pool hash, texture identities,
//! anchor placement, and the five-mebibyte FIFO pool of rendered labels.
use crate::text::{byte_len, lemma_encode_concat, push_chars, string_from_chars};
use vstd::prelude::*;
use vstd::utf8::encode_utf8;
use vstd::wrapping::{i32_specs, u64_specs};

verus! {

broadcast use vstd::utf8::encode_utf8_valid_utf8, vstd::utf8::encode_utf8_decode_utf8;

/// What a script-side system-font binding carries that the label logic reads.
#[derive(Debug)]
pub struct SystemFontRenderBinding {
    pub label_pool_epoch: u64,
    pub family: String,
    pub size: i32,
    pub fill_rgba: [u8; 4],
    pub stroke_width: i32,
    pub stroke_rgba: [u8; 4],
    pub style: i32,
    pub ascending: i32,
    pub descending: i32,
}

/// One DJB2 step that multiplies before adding the byte.
pub open spec fn hash_family(hash: u64, bytes: Seq<u8>) -> u64
    decreases bytes.len(),
{
    if bytes.len() == 0 {
        hash
    } else {
        u64_specs::wrapping_add(
            u64_specs::wrapping_mul(hash_family(hash, bytes.drop_last()), 33),
            bytes.last() as u64,
        )
    }
}

/// DJB2 steps that add the byte before multiplying.
pub open spec fn hash_text(hash: u64, bytes: Seq<u8>) -> u64
    decreases bytes.len(),
{
    if bytes.len() == 0 {
        hash
    } else {
        u64_specs::wrapping_mul(
            u64_specs::wrapping_add(hash_text(hash, bytes.drop_last()), bytes.last() as u64),
            33,
        )
    }
}

/// A signed field as the hash adds it: sign-extended to 64 bits.
pub open spec fn sign_extended(value: i32) -> u64 {
    (value as i64) as u64
}

/// A colour as the native AARRGGBB word, read as a signed integer.
pub open spec fn argb_word(rgba: [u8; 4]) -> i32 {
    ((rgba[3] as int) * 0x100_0000 + (rgba[0] as int) * 0x1_0000 + (rgba[1] as int) * 0x100
        + (rgba[2] as int)) as i32
}

pub open spec fn hash_field(hash: u64, value: i32) -> u64 {
    u64_specs::wrapping_mul(u64_specs::wrapping_add(hash, sign_extended(value)), 33)
}

/// The label-pool hash of a text drawn with a binding, in the native field
/// order: family bytes, a separator multiply, text bytes, size, fill colour,
/// stroke width, stroke colour, then the style added last.
pub open spec fn label_hash(
    family: Seq<char>,
    text: Seq<char>,
    size: i32,
    fill: [u8; 4],
    stroke_width: i32,
    stroke: [u8; 4],
    style: i32,
) -> u64 {
    let h = u64_specs::wrapping_mul(hash_family(5381, encode_utf8(family)), 33);
    let h = hash_text(h, encode_utf8(text));
    let h = hash_field(h, size);
    let h = hash_field(h, argb_word(fill));
    let h = hash_field(h, stroke_width);
    let h = hash_field(h, argb_word(stroke));
    u64_specs::wrapping_add(h, sign_extended(style))
}

pub open spec fn binding_label_hash(binding: SystemFontRenderBinding, text: Seq<char>) -> u64 {
    label_hash(
        binding.family@,
        text,
        binding.size,
        binding.fill_rgba,
        binding.stroke_width,
        binding.stroke_rgba,
        binding.style,
    )
}

fn argb(rgba: [u8; 4]) -> (word: i32)
    ensures
        word == argb_word(rgba),
{
    let unsigned: u32 = (rgba[3] as u32) * 0x100_0000 + (rgba[0] as u32) * 0x1_0000 + (
    rgba[1] as u32) * 0x100 + (rgba[2] as u32);
    unsigned as i32
}

fn add_field(hash: u64, value: i32) -> (next: u64)
    ensures
        next == hash_field(hash, value),
{
    hash.wrapping_add((value as i64) as u64).wrapping_mul(33)
}

pub fn native_system_label_hash(binding: &SystemFontRenderBinding, text: &str) -> (hash: u64)
    ensures
        hash == binding_label_hash(*binding, text@),
{
    let family = binding.family.as_str().as_bytes();
    let mut hash: u64 = 5381;
    let mut i: usize = 0;
    while i < family.len()
        invariant
            family@ == encode_utf8(binding.family@),
            0 <= i <= family@.len(),
            hash == hash_family(5381, family@.take(i as int)),
        decreases family@.len() - i,
    {
        proof {
            assert(family@.take(i + 1).drop_last() =~= family@.take(i as int));
        }
        hash = hash.wrapping_mul(33).wrapping_add(family[i] as u64);
        i = i + 1;
    }
    assert(family@.take(i as int) =~= family@);
    hash = hash.wrapping_mul(33);
    let bytes = text.as_bytes();
    let ghost start = hash;
    let mut k: usize = 0;
    while k < bytes.len()
        invariant
            bytes@ == encode_utf8(text@),
            0 <= k <= bytes@.len(),
            hash == hash_text(start, bytes@.take(k as int)),
        decreases bytes@.len() - k,
    {
        proof {
            assert(bytes@.take(k + 1).drop_last() =~= bytes@.take(k as int));
        }
        hash = hash.wrapping_add(bytes[k] as u64).wrapping_mul(33);
        k = k + 1;
    }
    assert(bytes@.take(k as int) =~= bytes@);
    hash = add_field(hash, binding.size);
    hash = add_field(hash, argb(binding.fill_rgba));
    hash = add_field(hash, binding.stroke_width);
    hash = add_field(hash, argb(binding.stroke_rgba));
    hash.wrapping_add((binding.style as i64) as u64)
}

proof fn lemma_times_33_injective(a: u64, b: u64)
    requires
        u64_specs::wrapping_mul(a, 33) == u64_specs::wrapping_mul(b, 33),
    ensures
        a == b,
{
    assert(((a as int * 33) % 0x1_0000_0000_0000_0000 == (b as int * 33)
        % 0x1_0000_0000_0000_0000) ==> a == b) by (bit_vector);
}

proof fn lemma_sign_extension_injective(a: i32, b: i32)
    requires
        sign_extended(a) == sign_extended(b),
    ensures
        a == b,
{
    assert(((a as i64) as u64 == (b as i64) as u64) ==> a == b) by (bit_vector);
}

proof fn lemma_argb_injective(x: [u8; 4], y: [u8; 4])
    requires
        argb_word(x) == argb_word(y),
    ensures
        x == y,
{
    let (a0, a1, a2, a3) = (x[0], x[1], x[2], x[3]);
    let (b0, b1, b2, b3) = (y[0], y[1], y[2], y[3]);
    assert(((((a3 as u32) << 24u32) | ((a0 as u32) << 16u32) | ((a1 as u32) << 8u32)
        | (a2 as u32)) as i32 == (((b3 as u32) << 24u32) | ((b0 as u32) << 16u32) | ((b1 as u32)
        << 8u32) | (b2 as u32)) as i32) ==> a0 == b0 && a1 == b1 && a2 == b2 && a3 == b3)
        by (bit_vector);
    assert(((a3 as u32) << 24u32) | ((a0 as u32) << 16u32) | ((a1 as u32) << 8u32) | (a2 as u32)
        == (a3 as u32) * 0x100_0000 + (a0 as u32) * 0x1_0000 + (a1 as u32) * 0x100 + (a2 as u32))
        by (bit_vector);
    assert(((b3 as u32) << 24u32) | ((b0 as u32) << 16u32) | ((b1 as u32) << 8u32) | (b2 as u32)
        == (b3 as u32) * 0x100_0000 + (b0 as u32) * 0x1_0000 + (b1 as u32) * 0x100 + (b2 as u32))
        by (bit_vector);
    assert(x =~= y);
}

/// Labels that differ only in their stroke colour never share a hash, so
/// they never share a pool entry or a texture.
pub proof fn law_stroke_colour_tells_labels_apart(
    family: Seq<char>,
    text: Seq<char>,
    size: i32,
    fill: [u8; 4],
    stroke_width: i32,
    stroke: [u8; 4],
    other_stroke: [u8; 4],
    style: i32,
)
    requires
        stroke != other_stroke,
    ensures
        label_hash(family, text, size, fill, stroke_width, stroke, style) != label_hash(
            family,
            text,
            size,
            fill,
            stroke_width,
            other_stroke,
            style,
        ),
{
    let h = u64_specs::wrapping_mul(hash_family(5381, encode_utf8(family)), 33);
    let h = hash_text(h, encode_utf8(text));
    let h = hash_field(h, size);
    let h = hash_field(h, argb_word(fill));
    let h = hash_field(h, stroke_width);
    let p = u64_specs::wrapping_add(h, sign_extended(argb_word(stroke)));
    let q = u64_specs::wrapping_add(h, sign_extended(argb_word(other_stroke)));
    if label_hash(family, text, size, fill, stroke_width, stroke, style) == label_hash(
        family,
        text,
        size,
        fill,
        stroke_width,
        other_stroke,
        style,
    ) {
        assert(u64_specs::wrapping_mul(p, 33) == u64_specs::wrapping_mul(q, 33));
        lemma_times_33_injective(p, q);
        lemma_sign_extension_injective(argb_word(stroke), argb_word(other_stroke));
        lemma_argb_injective(stroke, other_stroke);
    }
}

proof fn lemma_field_injective(h1: u64, h2: u64, v1: i32, v2: i32)
    requires
        hash_field(h1, v1) == hash_field(h2, v2),
        h1 == h2 || v1 == v2,
    ensures
        h1 == h2 && v1 == v2,
{
    let p = u64_specs::wrapping_add(h1, sign_extended(v1));
    let q = u64_specs::wrapping_add(h2, sign_extended(v2));
    lemma_times_33_injective(p, q);
    if h1 == h2 {
        lemma_sign_extension_injective(v1, v2);
    }
}

/// Labels that differ only in their fill colour, size, stroke width or
/// style never share a hash either.
pub proof fn law_every_drawing_field_tells_labels_apart(
    family: Seq<char>,
    text: Seq<char>,
    size: i32,
    fill: [u8; 4],
    stroke_width: i32,
    stroke: [u8; 4],
    style: i32,
    other_size: i32,
    other_fill: [u8; 4],
    other_width: i32,
    other_style: i32,
)
    ensures
        fill != other_fill ==> label_hash(family, text, size, fill, stroke_width, stroke, style)
            != label_hash(family, text, size, other_fill, stroke_width, stroke, style),
        size != other_size ==> label_hash(family, text, size, fill, stroke_width, stroke, style)
            != label_hash(family, text, other_size, fill, stroke_width, stroke, style),
        stroke_width != other_width ==> label_hash(family, text, size, fill, stroke_width, stroke, style)
            != label_hash(family, text, size, fill, other_width, stroke, style),
        style != other_style ==> label_hash(family, text, size, fill, stroke_width, stroke, style)
            != label_hash(family, text, size, fill, stroke_width, stroke, other_style),
{
    let h0 = hash_text(
        u64_specs::wrapping_mul(hash_family(5381, encode_utf8(family)), 33),
        encode_utf8(text),
    );
    let sw = argb_word(stroke);
    // Fill.
    let a1 = hash_field(h0, size);
    if fill != other_fill && label_hash(family, text, size, fill, stroke_width, stroke, style)
        == label_hash(family, text, size, other_fill, stroke_width, stroke, style) {
        let (x, y) = (hash_field(a1, argb_word(fill)), hash_field(a1, argb_word(other_fill)));
        let (x2, y2) = (hash_field(x, stroke_width), hash_field(y, stroke_width));
        lemma_field_injective(x2, y2, sw, sw);
        lemma_field_injective(x, y, stroke_width, stroke_width);
        lemma_field_injective(a1, a1, argb_word(fill), argb_word(other_fill));
        lemma_argb_injective(fill, other_fill);
    }
    // Size.
    if size != other_size && label_hash(family, text, size, fill, stroke_width, stroke, style)
        == label_hash(family, text, other_size, fill, stroke_width, stroke, style) {
        let fw = argb_word(fill);
        let (x, y) = (hash_field(h0, size), hash_field(h0, other_size));
        let (x1, y1) = (hash_field(x, fw), hash_field(y, fw));
        let (x2, y2) = (hash_field(x1, stroke_width), hash_field(y1, stroke_width));
        lemma_field_injective(x2, y2, sw, sw);
        lemma_field_injective(x1, y1, stroke_width, stroke_width);
        lemma_field_injective(x, y, fw, fw);
        lemma_field_injective(h0, h0, size, other_size);
    }
    // Stroke width.
    if stroke_width != other_width && label_hash(family, text, size, fill, stroke_width, stroke, style)
        == label_hash(family, text, size, fill, other_width, stroke, style) {
        let x0 = hash_field(a1, argb_word(fill));
        let (x, y) = (hash_field(x0, stroke_width), hash_field(x0, other_width));
        lemma_field_injective(x, y, sw, sw);
        lemma_field_injective(x0, x0, stroke_width, other_width);
    }
    // Style.
    if style != other_style && label_hash(family, text, size, fill, stroke_width, stroke, style)
        == label_hash(family, text, size, fill, stroke_width, stroke, other_style) {
        lemma_sign_extension_injective(style, other_style);
    }
}

/// Two bindings that differ only in their stroke colour give every text
/// different label hashes.
pub proof fn law_bindings_differing_in_stroke_hash_apart(
    a: SystemFontRenderBinding,
    b: SystemFontRenderBinding,
    text: Seq<char>,
)
    requires
        a.family@ == b.family@,
        a.size == b.size,
        a.fill_rgba == b.fill_rgba,
        a.stroke_width == b.stroke_width,
        a.style == b.style,
        a.stroke_rgba != b.stroke_rgba,
    ensures
        binding_label_hash(a, text) != binding_label_hash(b, text),
{
    law_stroke_colour_tells_labels_apart(
        a.family@,
        text,
        a.size,
        a.fill_rgba,
        a.stroke_width,
        a.stroke_rgba,
        b.stroke_rgba,
        a.style,
    );
}

/// Two bindings with the same family that differ in exactly one drawing
/// field (size, fill colour, stroke width or style) give every text
/// different label hashes.
pub proof fn law_bindings_differing_in_one_field_hash_apart(
    a: SystemFontRenderBinding,
    b: SystemFontRenderBinding,
    text: Seq<char>,
)
    requires
        a.family@ == b.family@,
        a.stroke_rgba == b.stroke_rgba,
    ensures
        a.size != b.size && a.fill_rgba == b.fill_rgba && a.stroke_width == b.stroke_width
            && a.style == b.style ==> binding_label_hash(a, text) != binding_label_hash(b, text),
        a.size == b.size && a.fill_rgba != b.fill_rgba && a.stroke_width == b.stroke_width
            && a.style == b.style ==> binding_label_hash(a, text) != binding_label_hash(b, text),
        a.size == b.size && a.fill_rgba == b.fill_rgba && a.stroke_width != b.stroke_width
            && a.style == b.style ==> binding_label_hash(a, text) != binding_label_hash(b, text),
        a.size == b.size && a.fill_rgba == b.fill_rgba && a.stroke_width == b.stroke_width
            && a.style != b.style ==> binding_label_hash(a, text) != binding_label_hash(b, text),
{
    law_every_drawing_field_tells_labels_apart(
        a.family@,
        text,
        a.size,
        a.fill_rgba,
        a.stroke_width,
        a.stroke_rgba,
        a.style,
        b.size,
        b.fill_rgba,
        b.stroke_width,
        b.style,
    );
}

// ---------------------------------------------------------------------------
// Texture identities

/// Lower-case hexadecimal digit.
pub open spec fn hex_digit(d: u64) -> char {
    if d < 10 {
        (('0' as u32) + d) as char
    } else {
        (('a' as u32) + (d - 10)) as char
    }
}

/// The last `n` hexadecimal digits of `value`, zero-padded.
pub open spec fn hex_digits(value: u64, n: nat) -> Seq<char>
    decreases n,
{
    if n == 0 {
        seq![]
    } else {
        hex_digits(value / 16, (n - 1) as nat).push(hex_digit(value % 16))
    }
}

/// `{value:016x}`.
pub open spec fn hex16(value: u64) -> Seq<char> {
    hex_digits(value, 16)
}

fn hex_digit_char(d: u64) -> (c: char)
    requires
        d < 16,
    ensures
        c == hex_digit(d),
{
    if d < 10 {
        ((48 + d) as u8) as char
    } else {
        ((87 + d) as u8) as char
    }
}

fn push_hex(out: &mut Vec<char>, value: u64, n: usize)
    ensures
        final(out)@ == old(out)@ + hex_digits(value, n as nat),
    decreases n,
{
    if n > 0 {
        push_hex(out, value / 16, n - 1);
        out.push(hex_digit_char(value % 16));
        assert(final(out)@ =~= old(out)@ + hex_digits(value, n as nat)) by {
            assert(hex_digits(value, n as nat) == hex_digits(value / 16, (n - 1) as nat).push(
                hex_digit(value % 16),
            ));
        }
    } else {
        assert(old(out)@ + hex_digits(value, 0) =~= old(out)@);
    }
}

pub open spec fn key_open() -> Seq<char> {
    seq!['<', 's', 'y', 's', 't', 'e', 'm', '-', 'f', 'o', 'n', 't', ':']
}

/// `<system-font:{hash:016x}@{epoch:016x}>`: a label's identity within one
/// pool lifetime.
pub open spec fn lifetime_key(hash: u64, epoch: u64) -> Seq<char> {
    key_open() + hex16(hash) + seq!['@'] + hex16(epoch) + seq!['>']
}

/// `<system-font:{hash:016x}@{epoch:016x}#{identity:016x}>`: the deferred
/// texture identity of one inserted label.
pub open spec fn texture_key(hash: u64, epoch: u64, identity: u64) -> Seq<char> {
    key_open() + hex16(hash) + seq!['@'] + hex16(epoch) + seq!['#'] + hex16(identity) + seq![
        '>',
    ]
}

proof fn lemma_ascii_len(s: Seq<char>)
    requires
        forall|i: int| 0 <= i < s.len() ==> (#[trigger] s[i] as u32) <= 0x7f,
    ensures
        byte_len(s) == s.len(),
{
    crate::text::lemma_byte_len_at_least_len(s);
}

proof fn lemma_hex_ascii(value: u64, n: nat)
    ensures
        hex_digits(value, n).len() == n,
        forall|i: int| 0 <= i < n ==> (#[trigger] hex_digits(value, n)[i] as u32) <= 0x7f,
    decreases n,
{
    if n > 0 {
        lemma_hex_ascii(value / 16, (n - 1) as nat);
    }
}

fn key_prefix(hash: u64, epoch: u64) -> (out: Vec<char>)
    ensures
        out@ == key_open() + hex16(hash) + seq!['@'] + hex16(epoch),
        out@.len() == 46,
        forall|i: int| 0 <= i < out@.len() ==> (#[trigger] out@[i] as u32) <= 0x7f,
{
    let mut out: Vec<char> = Vec::new();
    let open = ['<', 's', 'y', 's', 't', 'e', 'm', '-', 'f', 'o', 'n', 't', ':'];
    push_chars(&mut out, open.as_slice());
    assert(open@ =~= key_open());
    push_hex(&mut out, hash, 16);
    out.push('@');
    push_hex(&mut out, epoch, 16);
    proof {
        lemma_hex_ascii(hash, 16);
        lemma_hex_ascii(epoch, 16);
        assert(out@ =~= key_open() + hex16(hash) + seq!['@'] + hex16(epoch));
        assert forall|i: int| 0 <= i < out@.len() implies (#[trigger] out@[i] as u32) <= 0x7f by {
            if 13 <= i < 29 {
                assert(out@[i] == hex16(hash)[i - 13]);
            } else if 30 <= i < 46 {
                assert(out@[i] == hex16(epoch)[i - 30]);
            }
        }
    }
    out
}

/// The identity of a label within one pool lifetime (used by tests to tell
/// lifetimes apart).
pub fn system_label_lifetime_key(binding: &SystemFontRenderBinding, text: &str) -> (key: String)
    ensures
        key@ == lifetime_key(binding_label_hash(*binding, text@), binding.label_pool_epoch),
{
    let hash = native_system_label_hash(binding, text);
    let mut out = key_prefix(hash, binding.label_pool_epoch);
    out.push('>');
    proof {
        assert(out@ =~= lifetime_key(hash, binding.label_pool_epoch));
        assert forall|i: int| 0 <= i < out@.len() implies (#[trigger] out@[i] as u32) <= 0x7f by {
            if i < 46 {
                assert(out@[i] == out@.drop_last()[i]);
            }
        }
        lemma_ascii_len(out@);
    }
    string_from_chars(&out)
}

fn texture_key_text(hash: u64, epoch: u64, identity: u64) -> (key: String)
    ensures
        key@ == texture_key(hash, epoch, identity),
{
    let mut out = key_prefix(hash, epoch);
    let ghost prefix = out@;
    out.push('#');
    push_hex(&mut out, identity, 16);
    out.push('>');
    proof {
        lemma_hex_ascii(identity, 16);
        assert(out@ =~= texture_key(hash, epoch, identity));
        assert forall|i: int| 0 <= i < out@.len() implies (#[trigger] out@[i] as u32) <= 0x7f by {
            if i < 46 {
                assert(out@[i] == prefix[i]);
            } else if 47 <= i < 63 {
                assert(out@[i] == hex16(identity)[i - 47]);
            }
        }
        lemma_ascii_len(out@);
    }
    string_from_chars(&out)
}

/// `16^n`.
pub open spec fn hex_power(n: nat) -> nat
    decreases n,
{
    if n == 0 {
        1
    } else {
        16 * hex_power((n - 1) as nat)
    }
}

proof fn lemma_hex_digit_injective(a: u64, b: u64)
    requires
        a < 16,
        b < 16,
        hex_digit(a) == hex_digit(b),
    ensures
        a == b,
{
}

proof fn lemma_hex_digits_injective(a: u64, b: u64, n: nat)
    requires
        hex_digits(a, n) == hex_digits(b, n),
    ensures
        hex_power(n) > 0,
        a as int % (hex_power(n) as int) == b as int % (hex_power(n) as int),
    decreases n,
{
    if n > 0 {
        let m = (n - 1) as nat;
        assert(hex_digits(a, n).last() == hex_digit(a % 16));
        assert(hex_digits(b, n).last() == hex_digit(b % 16));
        lemma_hex_digit_injective(a % 16, b % 16);
        assert(hex_digits(a, n).drop_last() =~= hex_digits(a / 16, m));
        assert(hex_digits(b, n).drop_last() =~= hex_digits(b / 16, m));
        lemma_hex_digits_injective(a / 16, b / 16, m);
        vstd::arithmetic::div_mod::lemma_mod_breakdown(a as int, 16, hex_power(m) as int);
        vstd::arithmetic::div_mod::lemma_mod_breakdown(b as int, 16, hex_power(m) as int);
    }
}

/// Sixteen hex digits name a 64-bit value uniquely.
proof fn lemma_hex16_injective(a: u64, b: u64)
    requires
        hex16(a) == hex16(b),
    ensures
        a == b,
{
    lemma_hex_digits_injective(a, b, 16);
    reveal_with_fuel(hex_power, 17);
    assert(hex_power(16) == 0x1_0000_0000_0000_0000);
}

/// Texture keys tell label lifetimes apart: two identities, or two epochs,
/// never share a key, so a texture retired by eviction or by an epoch change
/// is never rebound to the label that replaces it.
pub proof fn law_texture_keys_are_distinct(
    hash: u64,
    epoch: u64,
    other_epoch: u64,
    identity: u64,
    other_identity: u64,
)
    ensures
        identity != other_identity ==> texture_key(hash, epoch, identity) != texture_key(
            hash,
            epoch,
            other_identity,
        ),
        epoch != other_epoch ==> texture_key(hash, epoch, identity) != texture_key(
            hash,
            other_epoch,
            other_identity,
        ),
        epoch != other_epoch ==> lifetime_key(hash, epoch) != lifetime_key(hash, other_epoch),
{
    lemma_hex_ascii(hash, 16);
    lemma_hex_ascii(epoch, 16);
    lemma_hex_ascii(other_epoch, 16);
    lemma_hex_ascii(identity, 16);
    lemma_hex_ascii(other_identity, 16);
    if identity != other_identity && texture_key(hash, epoch, identity) == texture_key(
        hash,
        epoch,
        other_identity,
    ) {
        assert(texture_key(hash, epoch, identity).subrange(47, 63) =~= hex16(identity));
        assert(texture_key(hash, epoch, other_identity).subrange(47, 63) =~= hex16(other_identity));
        lemma_hex16_injective(identity, other_identity);
    }
    if epoch != other_epoch && texture_key(hash, epoch, identity) == texture_key(
        hash,
        other_epoch,
        other_identity,
    ) {
        assert(texture_key(hash, epoch, identity).subrange(30, 46) =~= hex16(epoch));
        assert(texture_key(hash, other_epoch, other_identity).subrange(30, 46) =~= hex16(
            other_epoch,
        ));
        lemma_hex16_injective(epoch, other_epoch);
    }
    if epoch != other_epoch && lifetime_key(hash, epoch) == lifetime_key(hash, other_epoch) {
        assert(lifetime_key(hash, epoch).subrange(30, 46) =~= hex16(epoch));
        assert(lifetime_key(hash, other_epoch).subrange(30, 46) =~= hex16(other_epoch));
        lemma_hex16_injective(epoch, other_epoch);
    }
}

// ---------------------------------------------------------------------------
// Anchors

/// Rust's `/` on `i32`: the quotient truncated toward zero.
pub open spec fn truncated_half(value: i32) -> i32 {
    if value >= 0 {
        (value / 2) as i32
    } else {
        (-((-value) / 2)) as i32
    }
}

/// Vertical offset of a label's anchor from its top, from the font's
/// ascent and descent (added with 32-bit wrap-around).
pub open spec fn vertical_anchor_offset(ascending: i32, descending: i32, anchor: Seq<char>) -> i32 {
    let height = i32_specs::wrapping_add(ascending, descending);
    if anchor == seq!['V', 'C', 'E', 'N', 'T', 'E', 'R'] {
        truncated_half(height)
    } else if anchor == seq!['B', 'O', 'T', 'T', 'O', 'M'] {
        height
    } else if anchor == seq!['B', 'A', 'S', 'E', 'L', 'I', 'N', 'E'] {
        ascending
    } else {
        0
    }
}

fn is_word(text: &str, chars: &[char]) -> (b: bool)
    ensures
        b == (text@ == chars@),
{
    let ghost word = chars@;
    let t = crate::text::chars_of(text);
    if t.len() != chars.len() {
        return false;
    }
    let mut i: usize = 0;
    while i < t.len()
        invariant
            t@ == text@,
            chars@ == word,
            t@.len() == word.len(),
            0 <= i <= t@.len(),
            forall|j: int| 0 <= j < i ==> t@[j] == word[j],
        decreases t@.len() - i,
    {
        if t[i] != chars[i] {
            return false;
        }
        i = i + 1;
    }
    assert(t@ =~= word);
    true
}

pub fn native_system_label_vertical_anchor(
    binding: &SystemFontRenderBinding,
    vertical_anchor: &str,
) -> (offset: i32)
    ensures
        offset == vertical_anchor_offset(binding.ascending, binding.descending, vertical_anchor@),
{
    let height = binding.ascending.wrapping_add(binding.descending);
    let vcenter = ['V', 'C', 'E', 'N', 'T', 'E', 'R'];
    let bottom = ['B', 'O', 'T', 'T', 'O', 'M'];
    let baseline = ['B', 'A', 'S', 'E', 'L', 'I', 'N', 'E'];
    if is_word(vertical_anchor, vcenter.as_slice()) {
        if height >= 0 {
            height / 2
        } else {
            -((-(height as i64)) / 2) as i32
        }
    } else if is_word(vertical_anchor, bottom.as_slice()) {
        height
    } else if is_word(vertical_anchor, baseline.as_slice()) {
        binding.ascending
    } else {
        0
    }
}

/// Whether a horizontal anchor needs the label's measured width.
pub open spec fn anchor_uses_width(anchor: Seq<char>) -> bool {
    anchor == seq!['R', 'I', 'G', 'H', 'T'] || anchor == seq!['H', 'C', 'E', 'N', 'T', 'E', 'R']
}

/// Horizontal offset of a label's anchor from its left edge, given the
/// label's native string width (measured only for the anchors that use it):
/// the width for `RIGHT`, half of it rounded down for `HCENTER`, else 0.
pub open spec fn horizontal_anchor_offset(width: i32, anchor: Seq<char>) -> i32 {
    if anchor == seq!['R', 'I', 'G', 'H', 'T'] {
        width
    } else if anchor == seq!['H', 'C', 'E', 'N', 'T', 'E', 'R'] {
        (width / 2) as i32
    } else {
        0
    }
}

pub fn horizontal_anchor_uses_width(horizontal_anchor: &str) -> (uses: bool)
    ensures
        uses == anchor_uses_width(horizontal_anchor@),
{
    let right = ['R', 'I', 'G', 'H', 'T'];
    let hcenter = ['H', 'C', 'E', 'N', 'T', 'E', 'R'];
    is_word(horizontal_anchor, right.as_slice()) || is_word(horizontal_anchor, hcenter.as_slice())
}

pub fn native_system_label_horizontal_anchor(width: i32, horizontal_anchor: &str) -> (offset: i32)
    ensures
        offset == horizontal_anchor_offset(width, horizontal_anchor@),
{
    let right = ['R', 'I', 'G', 'H', 'T'];
    let hcenter = ['H', 'C', 'E', 'N', 'T', 'E', 'R'];
    if is_word(horizontal_anchor, right.as_slice()) {
        width
    } else if is_word(horizontal_anchor, hcenter.as_slice()) {
        assert((width >> 1) == width / 2) by (bit_vector);
        width >> 1
    } else {
        0
    }
}

// ---------------------------------------------------------------------------
// Label pool

/// Byte budget of the native label pool: five mebibytes.
pub const LABEL_POOL_BYTE_LIMIT: u64 = 0x50_0000;

/// A rendered label held by the pool: the texture's identity and its size
/// in pixels (the texture itself lives with the renderer, under this key).
#[derive(Debug)]
pub struct CachedSystemLabel {
    pub texture_key: String,
    pub width: u32,
    pub height: u32,
}

/// Pool entry model: hash, texture key, width, height.
pub type LabelEntry = (u64, Seq<char>, u32, u32);

/// Bytes a label of this size occupies (RGBA, saturating).
pub open spec fn label_bytes(width: u32, height: u32) -> u64 {
    let n = (width as int) * (height as int) * 4;
    if n > u64::MAX {
        u64::MAX
    } else {
        n as u64
    }
}

/// Bytes held by a run of entries.
pub open spec fn pool_bytes(entries: Seq<LabelEntry>) -> int
    decreases entries.len(),
{
    if entries.len() == 0 {
        0
    } else {
        pool_bytes(entries.drop_last()) + label_bytes(entries.last().2, entries.last().3)
    }
}

/// How many of the oldest entries a new label of `incoming` bytes evicts:
/// the fewest whose removal brings the pool within its budget.
pub open spec fn evicted_count(entries: Seq<LabelEntry>, incoming: int, k: int) -> int
    decreases entries.len() - k,
{
    if k >= entries.len() || pool_bytes(entries.skip(k)) + incoming <= LABEL_POOL_BYTE_LIMIT {
        k
    } else {
        evicted_count(entries, incoming, k + 1)
    }
}

/// The pool's state: the epoch it belongs to, its entries from oldest to
/// newest, and the identity the next texture gets.
pub struct LabelPoolModel {
    pub epoch: Option<u64>,
    pub entries: Seq<LabelEntry>,
    pub next_identity: u64,
}

impl LabelPoolModel {
    /// The entry with this hash, if any.
    pub open spec fn find(self, hash: u64) -> Option<int> {
        if exists|k: int| 0 <= k < self.entries.len() && self.entries[k].0 == hash {
            Some(choose|k: int| 0 <= k < self.entries.len() && self.entries[k].0 == hash)
        } else {
            None
        }
    }

    /// Hashes are unique and the held bytes stay within the budget.
    pub open spec fn wf(self) -> bool {
        &&& forall|i: int, j: int|
            0 <= i < j < self.entries.len() ==> #[trigger] self.entries[i].0 != #[trigger] self.entries[j].0
        &&& pool_bytes(self.entries) <= LABEL_POOL_BYTE_LIMIT
    }
}

/// The process-global label pool: a hash-keyed
/// set of rendered labels with a byte budget, evicted first-in first-out.
/// A lookup does not refresh an entry. Changing epochs (the native pool's
/// last-instance clear) retires everything.
pub struct SystemLabelPool {
    active_epoch: Option<u64>,
    bytes: u64,
    entries: Vec<(u64, CachedSystemLabel)>,
    next_texture_identity: u64,
}

pub open spec fn entry_model(e: (u64, CachedSystemLabel)) -> LabelEntry {
    (e.0, e.1.texture_key@, e.1.width, e.1.height)
}

impl View for SystemLabelPool {
    type V = LabelPoolModel;

    closed spec fn view(&self) -> LabelPoolModel {
        LabelPoolModel {
            epoch: self.active_epoch,
            entries: self.entries@.map_values(|e: (u64, CachedSystemLabel)| entry_model(e)),
            next_identity: self.next_texture_identity,
        }
    }
}

/// A label too large for the whole pool.
#[derive(Clone, Copy, Debug, PartialEq, Eq, Structural)]
pub struct LabelTooLarge {
    pub bytes: u64,
}

proof fn lemma_pool_bytes_skip(entries: Seq<LabelEntry>, k: int)
    requires
        0 <= k < entries.len(),
    ensures
        pool_bytes(entries.skip(k)) == label_bytes(entries[k].2, entries[k].3) + pool_bytes(
            entries.skip(k + 1),
        ),
    decreases entries.len(),
{
    if k == entries.len() - 1 {
        assert(entries.skip(k).drop_last() =~= Seq::<LabelEntry>::empty());
        assert(entries.skip(k + 1) =~= Seq::<LabelEntry>::empty());
    } else {
        lemma_pool_bytes_skip(entries.drop_last(), k);
        assert(entries.skip(k).drop_last() =~= entries.drop_last().skip(k));
        assert(entries.skip(k + 1).drop_last() =~= entries.drop_last().skip(k + 1));
    }
}

proof fn lemma_pool_bytes_nonneg(entries: Seq<LabelEntry>)
    ensures
        pool_bytes(entries) >= 0,
    decreases entries.len(),
{
    if entries.len() > 0 {
        lemma_pool_bytes_nonneg(entries.drop_last());
    }
}

proof fn lemma_evicted_count(entries: Seq<LabelEntry>, incoming: int, k: int)
    requires
        0 <= k <= entries.len(),
        0 <= incoming <= LABEL_POOL_BYTE_LIMIT,
    ensures
        k <= evicted_count(entries, incoming, k) <= entries.len(),
        pool_bytes(entries.skip(evicted_count(entries, incoming, k))) + incoming
            <= LABEL_POOL_BYTE_LIMIT,
    decreases entries.len() - k,
{
    if k >= entries.len() {
        assert(entries.skip(k) =~= Seq::<LabelEntry>::empty());
    } else if pool_bytes(entries.skip(k)) + incoming > LABEL_POOL_BYTE_LIMIT {
        lemma_evicted_count(entries, incoming, k + 1);
    }
}

/// `label_bytes`, computed.
fn byte_size(width: u32, height: u32) -> (bytes: u64)
    ensures
        bytes == label_bytes(width, height),
{
    let w = width as u64;
    let h = height as u64;
    assert(w * h <= 0xffff_ffff * 0xffff_ffff) by (nonlinear_arith)
        requires
            w <= 0xffff_ffff,
            h <= 0xffff_ffff,
    ;
    let pixels = w * h;
    match pixels.checked_mul(4) {
        Some(bytes) => bytes,
        None => u64::MAX,
    }
}

proof fn lemma_find(m: LabelPoolModel, hash: u64, k: int)
    requires
        m.wf(),
        0 <= k < m.entries.len(),
        m.entries[k].0 == hash,
    ensures
        m.find(hash) == Some(k),
{
}

impl SystemLabelPool {
    /// An empty pool that has not entered any epoch.
    pub fn new() -> (pool: Self)
        ensures
            pool@.epoch.is_none(),
            pool@.entries.len() == 0,
            pool@.next_identity == 0,
            pool.inv(),
    {
        let pool = SystemLabelPool {
            active_epoch: None,
            bytes: 0,
            entries: Vec::new(),
            next_texture_identity: 0,
        };
        assert(pool@.entries =~= Seq::<LabelEntry>::empty());
        pool
    }

    /// The internal invariant: the byte counter matches the entries and the
    /// model is well formed.
    pub closed spec fn inv(&self) -> bool {
        &&& self@.wf()
        &&& self.bytes == pool_bytes(self@.entries)
    }

    pub fn bytes(&self) -> (bytes: u64)
        requires
            self.inv(),
        ensures
            bytes == pool_bytes(self@.entries),
    {
        self.bytes
    }

    /// Number of cached labels.
    pub fn len(&self) -> (n: usize)
        ensures
            n == self@.entries.len(),
    {
        self.entries.len()
    }

    pub fn is_empty(&self) -> (empty: bool)
        ensures
            empty == (self@.entries.len() == 0),
    {
        self.entries.len() == 0
    }

    fn entry_key(&self, k: usize) -> (key: String)
        requires
            k < self@.entries.len(),
        ensures
            key@ == self@.entries[k as int].1,
    {
        self.entries[k].1.texture_key.clone()
    }

    /// Enters an epoch. The same epoch keeps the pool; another one clears it
    /// and returns the texture keys of every retired label, oldest first.
    pub fn enter_epoch(&mut self, epoch: u64) -> (retired: Vec<String>)
        requires
            old(self).inv(),
        ensures
            final(self).inv(),
            old(self)@.epoch == Some(epoch) ==> final(self)@ == old(self)@ && retired@.len()
                == 0,
            old(self)@.epoch != Some(epoch) ==> final(self)@ == (LabelPoolModel {
                epoch: Some(epoch),
                entries: Seq::empty(),
                next_identity: old(self)@.next_identity,
            }) && retired@.len() == old(self)@.entries.len() && forall|j: int|
                0 <= j < retired@.len() ==> #[trigger] retired@[j]@ == old(self)@.entries[j].1,
    {
        if let Some(active) = self.active_epoch {
            if active == epoch {
                return Vec::new();
            }
        }
        let mut retired: Vec<String> = Vec::new();
        let mut k: usize = 0;
        while k < self.entries.len()
            invariant
                self == old(self),
                0 <= k <= self@.entries.len(),
                retired@.len() == k,
                forall|j: int| 0 <= j < k ==> #[trigger] retired@[j]@ == self@.entries[j].1,
            decreases self@.entries.len() - k,
        {
            let key = self.entry_key(k);
            retired.push(key);
            k = k + 1;
        }
        self.entries = Vec::new();
        self.bytes = 0;
        self.active_epoch = Some(epoch);
        assert(self@.entries =~= Seq::<LabelEntry>::empty());
        retired
    }

    /// Inserts the label rendered for `hash` in the current epoch, `width` by
    /// `height` pixels. A hash already present is a hit: its label comes back
    /// and nothing changes. A label larger than the whole pool is refused.
    /// Otherwise the oldest labels are evicted until the new one fits, their
    /// texture keys are returned oldest first, and the new label gets a
    /// texture key with a fresh identity, so that a draw that used an evicted
    /// texture is never rebound to its replacement.
    pub fn insert(&mut self, epoch: u64, hash: u64, width: u32, height: u32) -> (r: Result<
        (CachedSystemLabel, Vec<String>),
        LabelTooLarge,
    >)
        requires
            old(self).inv(),
            old(self)@.epoch == Some(epoch),
        ensures
            final(self).inv(),
            match old(self)@.find(hash) {
                Some(k) => r matches Ok((l, retired)) && (hash, l.texture_key@, l.width, l.height)
                    == old(self)@.entries[k] && retired@.len() == 0 && final(self)@ == old(self)@,
                None => if label_bytes(width, height) > LABEL_POOL_BYTE_LIMIT {
                    r == Err::<(CachedSystemLabel, Vec<String>), LabelTooLarge>(
                        LabelTooLarge { bytes: label_bytes(width, height) },
                    ) && final(self)@ == old(self)@
                } else {
                    let n = evicted_count(old(self)@.entries, label_bytes(width, height) as int, 0);
                    let key = texture_key(hash, epoch, old(self)@.next_identity);
                    &&& r matches Ok((l, retired)) && l.texture_key@ == key && l.width == width
                        && l.height == height && retired@.len() == n && forall|j: int|
                        0 <= j < n ==> #[trigger] retired@[j]@ == old(self)@.entries[j].1
                    &&& final(self)@ == (LabelPoolModel {
                        epoch: old(self)@.epoch,
                        entries: old(self)@.entries.skip(n).push((hash, key, width, height)),
                        next_identity: u64_specs::wrapping_add(old(self)@.next_identity, 1),
                    })
                },
            },
    {
        if let Some(label) = self.get(hash) {
            return Ok((label, Vec::new()));
        }
        let incoming = byte_size(width, height);
        if incoming > LABEL_POOL_BYTE_LIMIT {
            return Err(LabelTooLarge { bytes: incoming });
        }
        let ghost entries = self@.entries;
        proof {
            lemma_evicted_count(entries, incoming as int, 0);
            assert(entries.skip(0) =~= entries);
        }
        let mut retired: Vec<String> = Vec::new();
        let ghost mut n: int = 0;
        while self.bytes + incoming > LABEL_POOL_BYTE_LIMIT
            invariant
                self.active_epoch == old(self).active_epoch,
                self.next_texture_identity == old(self).next_texture_identity,
                entries == old(self)@.entries,
                old(self).inv(),
                old(self)@.find(hash).is_none(),
                incoming == label_bytes(width, height),
                incoming <= LABEL_POOL_BYTE_LIMIT,
                0 <= n <= entries.len(),
                self@.entries == entries.skip(n),
                self.bytes == pool_bytes(entries.skip(n)),
                self.bytes <= LABEL_POOL_BYTE_LIMIT,
                evicted_count(entries, incoming as int, 0) == evicted_count(
                    entries,
                    incoming as int,
                    n,
                ),
                retired@.len() == n,
                forall|j: int| 0 <= j < n ==> #[trigger] retired@[j]@ == entries[j].1,
            decreases entries.len() - n,
        {
            proof {
                if n >= entries.len() {
                    assert(entries.skip(n) =~= Seq::<LabelEntry>::empty());
                    assert(false);
                }
                lemma_pool_bytes_skip(entries, n);
                lemma_pool_bytes_nonneg(entries.skip(n + 1));
            }
            let ghost prev = self.entries@;
            let ghost before = self@.entries;
            assert(before[0] == entries.skip(n)[0]);
            assert(before[0] == entry_model(prev[0]));
            assert(entry_model(prev[0]) == entries[n]);
            let (_, oldest) = self.entries.remove(0);
            proof {
                assert(self.entries@ =~= prev.subrange(1, prev.len() as int));
                assert forall|i: int| 0 <= i < self@.entries.len() implies self@.entries[i]
                    == entries.skip(n + 1)[i] by {
                    assert(self@.entries[i] == entry_model(prev[i + 1]));
                    assert(before[i + 1] == entry_model(prev[i + 1]));
                    assert(before[i + 1] == entries.skip(n)[i + 1]);
                }
                assert(self@.entries =~= entries.skip(n + 1));
            }
            self.bytes = self.bytes - byte_size(oldest.width, oldest.height);
            retired.push(oldest.texture_key);
            proof {
                n = n + 1;
            }
        }
        let identity = self.next_texture_identity;
        self.next_texture_identity = self.next_texture_identity.wrapping_add(1);
        let key = texture_key_text(hash, epoch, identity);
        let label = CachedSystemLabel { texture_key: key.clone(), width, height };
        self.bytes = self.bytes + incoming;
        self.entries.push((hash, CachedSystemLabel { texture_key: key, width, height }));
        proof {
            let old_entries = entries.skip(n);
            assert(self@.entries =~= old_entries.push((hash, texture_key(hash, epoch, identity), width, height)));
            assert(self@.entries.drop_last() =~= old_entries);
            assert forall|i: int, j: int|
                0 <= i < j < self@.entries.len() implies #[trigger] self@.entries[i].0
                != #[trigger] self@.entries[j].0 by {
                if j == self@.entries.len() - 1 {
                    assert(self@.entries[i] == entries[i + n]);
                    if entries[i + n].0 == hash {
                        assert(exists|k: int| 0 <= k < entries.len() && entries[k].0 == hash);
                    }
                } else {
                    assert(self@.entries[i] == entries[i + n]);
                    assert(self@.entries[j] == entries[j + n]);
                }
            }
        }
        Ok((label, retired))
    }

    /// The cached label with this hash. A hit does not refresh its place in
    /// the eviction order.
    pub fn get(&self, hash: u64) -> (label: Option<CachedSystemLabel>)
        requires
            self.inv(),
        ensures
            match self@.find(hash) {
                Some(k) => label matches Some(l) && (hash, l.texture_key@, l.width, l.height)
                    == self@.entries[k],
                None => label.is_none(),
            },
    {
        let mut k: usize = 0;
        while k < self.entries.len()
            invariant
                self.inv(),
                0 <= k <= self@.entries.len(),
                forall|j: int| 0 <= j < k ==> self@.entries[j].0 != hash,
            decreases self@.entries.len() - k,
        {
            if self.entries[k].0 == hash {
                proof {
                    lemma_find(self@, hash, k as int);
                }
                let found = &self.entries[k].1;
                return Some(
                    CachedSystemLabel {
                        texture_key: found.texture_key.clone(),
                        width: found.width,
                        height: found.height,
                    },
                );
            }
            k = k + 1;
        }
        None
    }
}

} // verus!
