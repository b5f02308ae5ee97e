//! Byte-bounded shortening of names and paths for display.
use vstd::prelude::*;
use vstd::utf8::*;

verus! {

broadcast use vstd::string::group_string_axioms, vstd::utf8::encode_utf8_decode_utf8;

/// The UTF-8 encoding of a string, byte by byte.
pub open spec fn utf8_bytes(s: Seq<char>) -> Seq<u8> {
    encode_utf8(s)
}

/// Every character takes at least one byte.
pub proof fn lemma_utf8_at_least_one_byte_per_char(s: Seq<char>)
    ensures
        utf8_bytes(s).len() >= s.len(),
    decreases s.len(),
{
    if s.len() > 0 {
        lemma_utf8_at_least_one_byte_per_char(s.drop_first());
    }
}

/// The number of bytes kept from the front of a string that is cut down to `max` bytes.
pub open spec fn kept_prefix_len(max: usize) -> int {
    if max == 0 { 0 } else { max - 1 }
}

/// The text cut down from the back: `s` when its UTF-8 encoding fits in `max`
/// bytes, else its first `max - 1` bytes followed by an ellipsis.
pub open spec fn truncated(s: Seq<char>, max: usize) -> Seq<char> {
    if utf8_bytes(s).len() <= max {
        s
    } else {
        decode_utf8(utf8_bytes(s).subrange(0, kept_prefix_len(max))) + seq!['\u{2026}']
    }
}

/// Cutting `s` down from the back to `max` bytes does not split a character.
pub open spec fn truncate_accepts(s: Seq<char>, max: usize) -> bool {
    utf8_bytes(s).len() > max ==> is_char_boundary(utf8_bytes(s), kept_prefix_len(max))
}

/// Shortens `s` to its first `max - 1` bytes followed by an ellipsis when its
/// UTF-8 encoding is longer than `max` bytes; otherwise returns it unchanged.
pub fn truncate(s: &str, max: usize) -> (res: String)
    requires
        truncate_accepts(s@, max),
    ensures
        res@ == truncated(s@, max),
        max >= 1 ==> res@.len() <= max,
{
    proof {
        lemma_utf8_at_least_one_byte_per_char(s@);
    }
    let len = s.as_bytes().len();
    if len <= max {
        return s.to_owned();
    }
    let keep = max.saturating_sub(1);
    let (head, _) = s.split_at(keep);
    let mut res = String::from_str(head);
    let ellipsis = "\u{2026}";
    proof {
        reveal_strlit("\u{2026}");
    }
    res.append(ellipsis);
    proof {
        assert(head@ == decode_utf8(encode_utf8(head@)));
        lemma_utf8_at_least_one_byte_per_char(head@);
    }
    res
}

/// The byte offset at which the kept tail of a string of `len` bytes starts when
/// it is cut down to `max` bytes from the front.
pub open spec fn kept_suffix_start(len: int, max: usize) -> int {
    if len < max - 1 { 0 } else { len - (max - 1) }
}

/// The text cut down from the front: `s` when its UTF-8 encoding fits in `max`
/// bytes, else an ellipsis followed by its last `max - 1` bytes.
pub open spec fn shortened(s: Seq<char>, max: usize) -> Seq<char> {
    if utf8_bytes(s).len() <= max {
        s
    } else {
        seq!['\u{2026}'] + decode_utf8(
            utf8_bytes(s).subrange(
                kept_suffix_start(utf8_bytes(s).len() as int, max),
                utf8_bytes(s).len() as int,
            ),
        )
    }
}

/// Cutting `s` down from the front to `max` bytes leaves room for the
/// ellipsis and does not split a character.
pub open spec fn short_path_accepts(s: Seq<char>, max: usize) -> bool {
    utf8_bytes(s).len() > max ==> max >= 1 && is_char_boundary(
        utf8_bytes(s),
        kept_suffix_start(utf8_bytes(s).len() as int, max),
    )
}

/// Shortens `s` to an ellipsis followed by its last `max - 1` bytes when its
/// UTF-8 encoding is longer than `max` bytes; otherwise returns it unchanged.
pub fn short_path(s: &str, max: usize) -> (res: String)
    requires
        short_path_accepts(s@, max),
    ensures
        res@ == shortened(s@, max),
        max >= 1 ==> res@.len() <= max,
{
    proof {
        lemma_utf8_at_least_one_byte_per_char(s@);
    }
    let len = s.as_bytes().len();
    if len <= max {
        return s.to_owned();
    }
    let start = len.saturating_sub(max - 1);
    let (_, tail) = s.split_at(start);
    let ellipsis = "\u{2026}";
    proof {
        reveal_strlit("\u{2026}");
    }
    let mut res = String::from_str(ellipsis);
    res.append(tail);
    proof {
        assert(tail@ == decode_utf8(encode_utf8(tail@)));
        lemma_utf8_at_least_one_byte_per_char(tail@);
    }
    res
}

/// Encoding a concatenation encodes each part in turn.
pub proof fn lemma_utf8_concat(a: Seq<char>, b: Seq<char>)
    ensures
        utf8_bytes(a + b) == utf8_bytes(a) + utf8_bytes(b),
    decreases a.len(),
{
    if a.len() == 0 {
        assert(a + b =~= b);
        assert(utf8_bytes(a) + utf8_bytes(b) =~= utf8_bytes(b));
    } else {
        assert((a + b).drop_first() =~= a.drop_first() + b);
        lemma_utf8_concat(a.drop_first(), b);
        assert(utf8_bytes(a + b) =~= utf8_bytes(a) + utf8_bytes(b));
    }
}

/// Where two valid encodings meet there is a character boundary.
pub proof fn lemma_boundary_at_join(p: Seq<u8>, e: Seq<u8>)
    requires
        valid_utf8(p),
        valid_utf8(e),
    ensures
        valid_utf8(p + e),
        is_char_boundary(p + e, p.len() as int),
    decreases p.len(),
{
    valid_utf8_concat(p, e);
    if p.len() > 0 {
        let rest = pop_first_scalar(p);
        assert(rest.len() < p.len());
        assert(pop_first_scalar(p + e) =~= rest + e);
        lemma_boundary_at_join(rest, e);
    }
}

/// The ellipsis takes three bytes.
proof fn lemma_ellipsis_bytes()
    ensures
        utf8_bytes(seq!['\u{2026}']).len() == 3,
        valid_utf8(utf8_bytes(seq!['\u{2026}'])),
{
    let c = seq!['\u{2026}'];
    encode_utf8_valid_utf8(c);
    assert(c.drop_first() =~= Seq::<char>::empty());
    assert(c[0] == '\u{2026}');
    let v = c[0] as u32;
    assert(v == 0x2026);
    assert(has_width_3_encoding(v));
    assert(encode_scalar(v).len() == 3);
    assert(utf8_bytes(c) =~= encode_scalar(v) + encode_utf8(c.drop_first()));
}

/// Cutting a text down from the back a second time changes nothing, and the
/// second cut is always accepted.
pub proof fn lemma_truncate_idempotent(s: Seq<char>, max: usize)
    requires
        truncate_accepts(s, max),
    ensures
        truncate_accepts(truncated(s, max), max),
        truncated(truncated(s, max), max) == truncated(s, max),
{
    if utf8_bytes(s).len() > max {
        let b = utf8_bytes(s);
        let k = kept_prefix_len(max);
        encode_utf8_valid_utf8(s);
        valid_utf8_split(b, k);
        let pre = b.subrange(0, k);
        let head = decode_utf8(pre);
        decode_utf8_encode_utf8(pre);
        let r = head + seq!['\u{2026}'];
        lemma_utf8_concat(head, seq!['\u{2026}']);
        lemma_ellipsis_bytes();
        let e = utf8_bytes(seq!['\u{2026}']);
        assert(utf8_bytes(r) == pre + e);
        lemma_boundary_at_join(pre, e);
        assert(utf8_bytes(r).subrange(0, k) =~= pre);
    }
}

/// Cutting a text down from the front a second time changes nothing, and the
/// second cut is always accepted.
pub proof fn lemma_short_path_idempotent(s: Seq<char>, max: usize)
    requires
        short_path_accepts(s, max),
    ensures
        short_path_accepts(shortened(s, max), max),
        shortened(shortened(s, max), max) == shortened(s, max),
{
    if utf8_bytes(s).len() > max {
        let b = utf8_bytes(s);
        let start = kept_suffix_start(b.len() as int, max);
        encode_utf8_valid_utf8(s);
        valid_utf8_split(b, start);
        let suf = b.subrange(start, b.len() as int);
        let tail = decode_utf8(suf);
        decode_utf8_encode_utf8(suf);
        let r = seq!['\u{2026}'] + tail;
        lemma_utf8_concat(seq!['\u{2026}'], tail);
        lemma_ellipsis_bytes();
        let e = utf8_bytes(seq!['\u{2026}']);
        assert(utf8_bytes(r) == e + suf);
        lemma_boundary_at_join(e, suf);
        assert(kept_suffix_start(utf8_bytes(r).len() as int, max) == 3);
        assert(utf8_bytes(r).subrange(3, utf8_bytes(r).len() as int) =~= suf);
    }
}

} // verus!
