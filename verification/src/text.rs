use vstd::prelude::*;
use vstd::seq_lib::lemma_flatten_concat;
use vstd::string::StringExecFns;
use vstd::utf8::{encode_scalar, encode_utf8};
#[allow(unused_imports)]
use unicode_segmentation::UnicodeSegmentation;

verus! {

/// The extended grapheme clusters (UAX #29) of a string, in order. The
/// segmentation itself is computed by the `unicode-segmentation` crate; it is
/// a function of the characters alone.
pub uninterp spec fn graphemes_of(s: Seq<char>) -> Seq<Seq<char>>;

/// The Unicode lowercase form of a string, as `str::to_lowercase` computes
/// it; a function of the characters alone.
pub uninterp spec fn lower_of(s: Seq<char>) -> Seq<char>;

/// The length in bytes of the UTF-8 encoding of a character sequence; this is
/// what `str::len` returns.
pub open spec fn byte_len(s: Seq<char>) -> nat {
    encode_utf8(s).len()
}

/// The byte offset at which grapheme `i` of `s` starts: the byte length of
/// the graphemes before it.
pub open spec fn gstart(s: Seq<char>, i: int) -> int {
    byte_len(graphemes_of(s).subrange(0, i).flatten()) as int
}

/// The character sequences of a list of offset/grapheme pairs.
pub open spec fn strs_of(g: Seq<(usize, String)>) -> Seq<Seq<char>> {
    Seq::new(g.len(), |i: int| g[i].1@)
}

/// The facts the grapheme splitter guarantees about its result, stated over
/// the returned pairs: they carry the graphemes of `s` with their byte
/// offsets, every grapheme is nonempty, and together they partition `s`.
pub open spec fn grapheme_split_post(s: Seq<char>, r: Seq<(usize, String)>) -> bool {
    &&& r.len() == graphemes_of(s).len()
    &&& forall|i: int| 0 <= i < r.len() ==> (#[trigger] r[i]).1@ == graphemes_of(s)[i]
    &&& forall|i: int| 0 <= i < r.len() ==> (#[trigger] r[i]).1@.len() > 0
    &&& strs_of(r).flatten() == s
    &&& forall|i: int| 0 <= i < r.len() ==> (#[trigger] r[i]).0 as int == gstart(s, i)
}

/// Relies on `unicode_segmentation::UnicodeSegmentation::grapheme_indices`:
/// it partitions the string into its nonempty extended grapheme clusters,
/// pairing each with the byte offset at which it starts.
#[verifier::external_body]
pub(crate) fn grapheme_split(s: &str) -> (r: Vec<(usize, String)>)
    ensures
        r@.len() == graphemes_of(s@).len(),
        grapheme_split_post(s@, r@),
{
    s.grapheme_indices(true).map(|(o, g)| (o, g.to_string())).collect()
}

/// Relies on `str::to_lowercase`: the result depends on the characters alone,
/// and is nonempty whenever the input is.
#[verifier::external_body]
pub(crate) fn lowercase(s: &str) -> (r: String)
    ensures
        r@ == lower_of(s@),
        s@.len() > 0 ==> r@.len() > 0,
{
    s.to_lowercase()
}

/// Whether a character counts as Unicode whitespace, as `char::is_whitespace`
/// decides it; a function of the character alone.
pub uninterp spec fn is_unicode_space(c: char) -> bool;

/// Relies on `char::is_whitespace`: the result depends on the character
/// alone.
#[verifier::external_body]
pub(crate) fn char_is_whitespace(c: char) -> (r: bool)
    ensures
        r == is_unicode_space(c),
{
    c.is_whitespace()
}

/// Relies on `str::len`: it returns the length of the string in bytes, which
/// is the length of its UTF-8 encoding and in particular fits in `usize`.
#[verifier::external_body]
pub(crate) fn str_byte_len(s: &str) -> (r: usize)
    ensures
        r == byte_len(s@),
{
    s.len()
}

/// A single scalar encodes to between one and four bytes.
pub proof fn lemma_encode_scalar_len(c: u32)
    ensures
        1 <= encode_scalar(c).len() <= 4,
{
}

/// UTF-8 byte length distributes over concatenation.
pub proof fn lemma_byte_len_concat(a: Seq<char>, b: Seq<char>)
    ensures
        byte_len(a + b) == byte_len(a) + byte_len(b),
    decreases a.len(),
{
    if a.len() == 0 {
        assert(a + b =~= b);
    } else {
        assert((a + b).drop_first() =~= a.drop_first() + b);
        lemma_byte_len_concat(a.drop_first(), b);
        assert((a + b)[0] == a[0]);
    }
}

/// A nonempty character sequence has positive byte length, and at least one
/// byte per character.
pub proof fn lemma_byte_len_ge_chars(s: Seq<char>)
    ensures
        byte_len(s) >= s.len(),
    decreases s.len(),
{
    if s.len() > 0 {
        lemma_encode_scalar_len(s[0] as u32);
        lemma_byte_len_ge_chars(s.drop_first());
    }
}

/// Taking one more grapheme advances the byte offset by that grapheme's byte
/// length.
pub proof fn lemma_gstart_step(s: Seq<char>, i: int)
    requires
        0 <= i < graphemes_of(s).len(),
    ensures
        gstart(s, i + 1) == gstart(s, i) + byte_len(graphemes_of(s)[i]),
{
    let gs = graphemes_of(s);
    assert(gs.subrange(0, i + 1) =~= gs.subrange(0, i) + seq![gs[i]]);
    lemma_flatten_concat(gs.subrange(0, i), seq![gs[i]]);
    seq![gs[i]].lemma_flatten_one_element();
    lemma_byte_len_concat(gs.subrange(0, i).flatten(), gs[i]);
}

/// Byte offsets of graphemes are strictly increasing, start at zero, and end
/// at the byte length of the string. Needs the splitter's facts about `s`.
pub proof fn lemma_gstart_bounds(s: Seq<char>, r: Seq<(usize, String)>, i: int, j: int)
    requires
        grapheme_split_post(s, r),
        0 <= i < j <= graphemes_of(s).len(),
    ensures
        0 <= gstart(s, i) < gstart(s, j) <= byte_len(s),
    decreases j - i,
{
    let gs = graphemes_of(s);
    assert(gs.subrange(0, 0) =~= Seq::<Seq<char>>::empty());
    assert(Seq::<Seq<char>>::empty().flatten() =~= Seq::<char>::empty());
    lemma_gstart_step(s, i);
    assert(gs[i] == r[i].1@);
    lemma_byte_len_ge_chars(gs[i]);
    if i + 1 < j {
        lemma_gstart_bounds(s, r, i + 1, j);
    }
    lemma_gstart_nonneg(s, i);
    lemma_gstart_end(s, r, j);
}

/// Every grapheme byte offset is nonnegative.
pub proof fn lemma_gstart_nonneg(s: Seq<char>, i: int)
    ensures
        gstart(s, i) >= 0,
{
}

/// No grapheme byte offset passes the byte length of the string.
pub proof fn lemma_gstart_end(s: Seq<char>, r: Seq<(usize, String)>, j: int)
    requires
        grapheme_split_post(s, r),
        0 <= j <= graphemes_of(s).len(),
    ensures
        gstart(s, j) <= byte_len(s),
        gstart(s, graphemes_of(s).len() as int) == byte_len(s),
    decreases graphemes_of(s).len() - j,
{
    let gs = graphemes_of(s);
    if j < gs.len() {
        lemma_gstart_step(s, j);
        lemma_gstart_end(s, r, j + 1);
    } else {
        assert(gs.subrange(0, gs.len() as int) =~= gs);
        assert(strs_of(r) =~= gs);
    }
}

/// Grapheme byte offsets are injective: equal offsets name the same grapheme
/// position.
pub proof fn lemma_gstart_inj(s: Seq<char>, r: Seq<(usize, String)>, a: int, b: int)
    requires
        grapheme_split_post(s, r),
        0 <= a <= graphemes_of(s).len(),
        0 <= b <= graphemes_of(s).len(),
        gstart(s, a) == gstart(s, b),
    ensures
        a == b,
{
    if a < b {
        lemma_gstart_bounds(s, r, a, b);
    }
    if b < a {
        lemma_gstart_bounds(s, r, b, a);
    }
}

/// A string's graphemes are nonempty and at most as many as its bytes.
pub proof fn lemma_grapheme_count(s: Seq<char>, r: Seq<(usize, String)>)
    requires
        grapheme_split_post(s, r),
    ensures
        graphemes_of(s).len() <= byte_len(s),
        s.len() > 0 ==> graphemes_of(s).len() > 0,
{
    lemma_flatten_len_ge_count(strs_of(r));
    lemma_byte_len_ge_chars(s);
    if s.len() > 0 && graphemes_of(s).len() == 0 {
        assert(strs_of(r) =~= Seq::<Seq<char>>::empty());
        assert(Seq::<Seq<char>>::empty().flatten() =~= Seq::<char>::empty());
    }
}

/// Flattening sequences that are all nonempty yields at least one element per
/// sequence.
pub proof fn lemma_flatten_len_ge_count(ss: Seq<Seq<char>>)
    requires
        forall|i: int| 0 <= i < ss.len() ==> (#[trigger] ss[i]).len() > 0,
    ensures
        ss.flatten().len() >= ss.len(),
    decreases ss.len(),
{
    if ss.len() > 0 {
        lemma_flatten_len_ge_count(ss.drop_first());
        assert(ss[0].len() > 0);
        assert(ss.flatten() == ss[0] + ss.drop_first().flatten());
    }
}

/// The text of a grapheme span occupies exactly the bytes between the span's
/// offsets, which bound a nonempty range inside the string.
pub proof fn lemma_match_text_bound(s: Seq<char>, r: Seq<(usize, String)>, ms: int, me: int)
    requires
        grapheme_split_post(s, r),
        0 <= ms < me <= graphemes_of(s).len(),
    ensures
        0 <= gstart(s, ms) < gstart(s, me) <= byte_len(s),
        byte_len(graphemes_of(s).subrange(ms, me).flatten()) == gstart(s, me) - gstart(s, ms),
{
    let gs = graphemes_of(s);
    lemma_gstart_bounds(s, r, ms, me);
    assert(gs.subrange(0, me) =~= gs.subrange(0, ms) + gs.subrange(ms, me));
    lemma_flatten_concat(gs.subrange(0, ms), gs.subrange(ms, me));
    lemma_byte_len_concat(gs.subrange(0, ms).flatten(), gs.subrange(ms, me).flatten());
}

/// Concatenates the graphemes `g[from..to]` into one string; the result reads
/// exactly the characters of those graphemes in order.
pub(crate) fn concat_range(g: &Vec<(usize, String)>, from: usize, to: usize) -> (t: String)
    requires
        from <= to <= g@.len(),
    ensures
        t@ == strs_of(g@).subrange(from as int, to as int).flatten(),
{
    let ss = Ghost(strs_of(g@));
    let mut t = String::new();
    assert(ss@.subrange(from as int, from as int) =~= Seq::<Seq<char>>::empty());
    assert(Seq::<Seq<char>>::empty().flatten() =~= Seq::<char>::empty());
    let mut k = from;
    while k < to
        invariant
            from <= k <= to <= g@.len(),
            ss@ == strs_of(g@),
            t@ == ss@.subrange(from as int, k as int).flatten(),
        decreases to - k,
    {
        t.append(g[k].1.as_str());
        proof {
            assert(ss@.subrange(from as int, k + 1) =~= ss@.subrange(from as int, k as int)
                + seq![ss@[k as int]]);
            lemma_flatten_concat(ss@.subrange(from as int, k as int), seq![ss@[k as int]]);
            seq![ss@[k as int]].lemma_flatten_one_element();
        }
        k = k + 1;
    }
    t
}

} // verus!
