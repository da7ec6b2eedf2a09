//! The typed stack decoder: interpret a span of the operand stack as a typed
//! value for display. A type expression is an optional leading decimal
//! offset, then a primitive (`int`, `bool`, `b256`), an array `T[N]` or a
//! tuple `{T1, T2, ...}`, with an optional trailing `HEX` that forces
//! hexadecimal rendering. Any shortfall or malformed expression renders as
//! the empty string: the decoder is a display aid, never an error source.

use vstd::prelude::*;

use crate::model::Word;
use crate::text::{
    alpha_char, be_bytes_spec, bool_chars, bool_word_chars, chars_eq, chars_range, chars_string,
    chars_views, digit_char, ends_with, find_char, find_spec, hex_chars, hex_upper_chars,
    int_chars, is_alpha, is_digit, join_chars, join_spec, parse_usize, parse_usize_spec,
    split_chars, split_spec, str_chars, strip_digits, strip_digits_spec, strip_suffix_rep,
    strip_suffix_rep_spec, trim_chars, trim_spec, word_be_bytes, word_chars,
};

verus! {

/// The name of the one-word signed integer type.
pub open spec fn int_ty() -> Seq<char> {
    seq!['i', 'n', 't']
}

/// The name of the one-word boolean type.
pub open spec fn bool_ty() -> Seq<char> {
    seq!['b', 'o', 'o', 'l']
}

/// The name of the four-word 256-bit type.
pub open spec fn b256_ty() -> Seq<char> {
    seq!['b', '2', '5', '6']
}

/// The trailing marker that forces hexadecimal rendering.
pub open spec fn hex_marker() -> Seq<char> {
    seq!['H', 'E', 'X']
}

/// The separator between rendered members of an array or tuple.
pub open spec fn comma_sep() -> Seq<char> {
    seq![',', ' ']
}

/// The word width of a primitive type name: `int` and `bool` take one word,
/// `b256` takes four, anything else is unknown and takes none.
pub open spec fn size_spec(t: Seq<char>) -> nat {
    let t = trim_spec(t);
    if t == int_ty() {
        1
    } else if t == bool_ty() {
        1
    } else if t == b256_ty() {
        4
    } else {
        0
    }
}

/// The rendering of one primitive read from the start of `words`: decimal
/// (or hexadecimal when forced) for `int`, boolean text (or hexadecimal) for
/// `bool`, and always 32-byte upper-case hexadecimal for `b256`. A span too
/// short for the type, a word with no boolean reading, and an unknown type
/// all render as the empty string.
pub open spec fn prim_spec(words: Seq<Word>, t: Seq<char>, hex: bool) -> Seq<char> {
    let t = trim_spec(t);
    if t == int_ty() {
        if words.len() == 0 {
            Seq::empty()
        } else if hex {
            hex_chars(be_bytes_spec(words[0]))
        } else {
            int_chars(words[0] as int)
        }
    } else if t == bool_ty() {
        if words.len() == 0 {
            Seq::empty()
        } else if hex {
            hex_chars(be_bytes_spec(words[0]))
        } else {
            bool_chars(words[0])
        }
    } else if t == b256_ty() {
        if words.len() < 4 {
            Seq::empty()
        } else {
            hex_chars(
                be_bytes_spec(words[0]) + be_bytes_spec(words[1]) + be_bytes_spec(words[2])
                    + be_bytes_spec(words[3]),
            )
        }
    } else {
        Seq::empty()
    }
}

/// `s` with every trailing `c` removed.
pub open spec fn strip_char_end_spec(s: Seq<char>, c: char) -> Seq<char>
    decreases s.len(),
{
    if s.len() > 0 && s.last() == c {
        strip_char_end_spec(s.drop_last(), c)
    } else {
        s
    }
}

/// `s` with every leading `c` removed.
pub open spec fn strip_char_start_spec(s: Seq<char>, c: char) -> Seq<char>
    decreases s.len(),
{
    if s.len() > 0 && s[0] == c {
        strip_char_start_spec(s.drop_first(), c)
    } else {
        s
    }
}

/// Dropping a `c`-prefix does not change the stripped form.
proof fn lemma_strip_char_start_skip(s: Seq<char>, c: char, k: int)
    requires
        0 <= k <= s.len(),
        forall|j: int| 0 <= j < k ==> s[j] == c,
    ensures
        strip_char_start_spec(s, c) == strip_char_start_spec(s.skip(k), c),
    decreases k,
{
    if k > 0 {
        assert(s.drop_first() =~= s.skip(1));
        assert(s.skip(1).skip(k - 1) =~= s.skip(k));
        lemma_strip_char_start_skip(s.skip(1), c, k - 1);
    } else {
        assert(s.skip(0) =~= s);
    }
}

/// Dropping a `c`-suffix does not change the stripped form.
proof fn lemma_strip_char_end_take(s: Seq<char>, c: char, k: int)
    requires
        0 <= k <= s.len(),
        forall|j: int| k <= j < s.len() ==> s[j] == c,
    ensures
        strip_char_end_spec(s, c) == strip_char_end_spec(s.take(k), c),
    decreases s.len() - k,
{
    if k < s.len() {
        assert(s.drop_last() =~= s.take(s.len() - 1));
        assert(s.take(s.len() - 1).take(k) =~= s.take(k));
        lemma_strip_char_end_take(s.take(s.len() - 1), c, k);
    } else {
        assert(s.take(k) =~= s);
    }
}

/// Remove every trailing `c`.
#[verifier::loop_isolation(false)]
pub fn strip_char_end(v: &Vec<char>, c: char) -> (r: Vec<char>)
    ensures
        r@ == strip_char_end_spec(v@, c),
{
    let mut end: usize = v.len();
    while end > 0 && v[end - 1] == c
        invariant
            0 <= end <= v@.len(),
            forall|j: int| end <= j < v@.len() ==> v@[j] == c,
        decreases end,
    {
        end -= 1;
    }
    proof {
        lemma_strip_char_end_take(v@, c, end as int);
        if end > 0 {
            assert(strip_char_end_spec(v@.take(end as int), c) == v@.take(end as int));
        } else {
            assert(v@.take(0) =~= Seq::<char>::empty());
        }
        assert(v@.take(end as int) =~= v@.subrange(0, end as int));
    }
    chars_range(v, 0, end)
}

/// Remove every leading `c`.
#[verifier::loop_isolation(false)]
pub fn strip_char_start(v: &Vec<char>, c: char) -> (r: Vec<char>)
    ensures
        r@ == strip_char_start_spec(v@, c),
{
    let mut start: usize = 0;
    while start < v.len() && v[start] == c
        invariant
            0 <= start <= v@.len(),
            forall|j: int| 0 <= j < start ==> v@[j] == c,
        decreases v@.len() - start,
    {
        start += 1;
    }
    proof {
        lemma_strip_char_start_skip(v@, c, start as int);
        if start < v@.len() {
            assert(strip_char_start_spec(v@.skip(start as int), c) == v@.skip(start as int));
        } else {
            assert(v@.skip(start as int) =~= Seq::<char>::empty());
        }
        assert(v@.skip(start as int) =~= v@.subrange(start as int, v@.len() as int));
    }
    chars_range(v, start, v.len())
}

/// The joined member renderings, trimmed and with trailing commas removed.
pub open spec fn finish_join(parts: Seq<Seq<char>>) -> Seq<char> {
    strip_char_end_spec(trim_spec(join_spec(parts, comma_sep())), ',')
}

/// The renderings of `n` consecutive `size`-word chunks, each read as the
/// primitive `t`.
pub open spec fn chunk_parts(words: Seq<Word>, t: Seq<char>, size: nat, n: nat, hex: bool) -> Seq<
    Seq<char>,
>
    decreases n,
{
    if n == 0 {
        Seq::empty()
    } else {
        seq![prim_spec(words.take(size as int), t, hex)] + chunk_parts(
            words.skip(size as int),
            t,
            size,
            (n - 1) as nat,
            hex,
        )
    }
}

/// The total word width of a sequence of member type names.
pub open spec fn sizes_sum(pieces: Seq<Seq<char>>) -> nat
    decreases pieces.len(),
{
    if pieces.len() == 0 {
        0
    } else {
        size_spec(pieces[0]) + sizes_sum(pieces.drop_first())
    }
}

/// The renderings of tuple members laid out one after another, each member
/// reading its own width of words.
pub open spec fn tuple_parts(words: Seq<Word>, pieces: Seq<Seq<char>>, hex: bool) -> Seq<Seq<char>>
    decreases pieces.len(),
{
    if pieces.len() == 0 {
        Seq::empty()
    } else {
        let sz = size_spec(pieces[0]);
        seq![prim_spec(words.take(sz as int), pieces[0], hex)] + tuple_parts(
            words.skip(sz as int),
            pieces.drop_first(),
            hex,
        )
    }
}

/// The rendering of `words` as the (already offset-stripped) type `t0`:
/// a bracketed array, a braced tuple, or a single primitive. Arrays of
/// unknown element types, missing lengths, unparsable lengths and spans
/// shorter than the type's total width all render as the empty string.
pub open spec fn parse_ty_spec(words: Seq<Word>, t0: Seq<char>, hex: bool) -> Seq<char> {
    let t = trim_spec(t0);
    if t.len() > 0 && is_alpha(t[0]) && t.last() == ']' {
        let body = strip_char_end_spec(t, ']');
        let pieces = split_spec(body, '[');
        if pieces.len() < 2 {
            Seq::empty()
        } else {
            match parse_usize_spec(pieces[1]) {
                None => Seq::empty(),
                Some(n) => {
                    let size = size_spec(pieces[0]);
                    if size == 0 {
                        Seq::empty()
                    } else if words.len() < size * n {
                        Seq::empty()
                    } else {
                        seq!['['] + finish_join(
                            chunk_parts(words, pieces[0], size, n as nat, hex),
                        ) + seq![']']
                    }
                },
            }
        }
    } else if t.len() > 0 && t[0] == '{' && t.last() == '}' {
        let inner = strip_char_end_spec(strip_char_start_spec(t, '{'), '}');
        let pieces = split_spec(inner, ',');
        if words.len() < sizes_sum(pieces) {
            Seq::empty()
        } else {
            seq!['{', ' '] + finish_join(tuple_parts(words, pieces, hex)) + seq![' ', '}']
        }
    } else {
        prim_spec(words, t, hex)
    }
}

/// The piece of `s` before its first space (all of `s` if it has none).
pub open spec fn first_token(s: Seq<char>) -> Seq<char> {
    match find_spec(s, ' ') {
        None => s,
        Some(i) => s.take(i),
    }
}

/// The rendering of a full type expression against the stack `words`: trim,
/// honour a trailing `HEX` marker, read an optional leading decimal offset,
/// and decode the remaining type at that offset. An unparsable offset or an
/// offset beyond the stack renders as the empty string.
pub open spec fn parse_type_spec(words: Seq<Word>, ty: Seq<char>) -> Seq<char> {
    let t0 = trim_spec(ty);
    let hex = t0.len() >= 3 && t0.subrange(t0.len() - 3, t0.len() as int) == hex_marker();
    let t1 = trim_spec(strip_suffix_rep_spec(t0, hex_marker()));
    if t1.len() > 0 && is_digit(t1[0]) {
        match parse_usize_spec(first_token(t1)) {
            None => Seq::empty(),
            Some(pos) => {
                let t2 = trim_spec(strip_digits_spec(t1));
                if pos >= words.len() {
                    Seq::empty()
                } else {
                    parse_ty_spec(words.skip(pos as int), t2, hex)
                }
            },
        }
    } else {
        parse_ty_spec(words, t1, hex)
    }
}

/// The words of `v` in positions `a..b`.
fn words_range(v: &[Word], a: usize, b: usize) -> (r: Vec<Word>)
    requires
        0 <= a <= b <= v@.len(),
    ensures
        r@ == v@.subrange(a as int, b as int),
{
    let mut r: Vec<Word> = Vec::new();
    let mut i: usize = a;
    while i < b
        invariant
            a <= i <= b <= v@.len(),
            r@ == v@.subrange(a as int, i as int),
        decreases b - i,
    {
        r.push(v[i]);
        proof {
            assert(v@.subrange(a as int, i + 1) =~= v@.subrange(a as int, i as int).push(
                v@[i as int],
            ));
        }
        i += 1;
    }
    r
}

/// The word width of a primitive type name.
pub fn get_size(ty: &str) -> (r: usize)
    ensures
        r as nat == size_spec(ty@),
{
    let chars = str_chars(ty);
    prim_size(&chars)
}

/// The word width of a primitive type name given as characters.
fn prim_size(t: &Vec<char>) -> (r: usize)
    ensures
        r as nat == size_spec(t@),
        r <= 4,
{
    let t = trim_chars(t);
    if chars_eq(&t, &['i', 'n', 't']) {
        1
    } else if chars_eq(&t, &['b', 'o', 'o', 'l']) {
        1
    } else if chars_eq(&t, &['b', '2', '5', '6']) {
        4
    } else {
        0
    }
}

/// The total word width of a sequence of primitive type names.
pub open spec fn total_size_spec(tys: Seq<&str>) -> nat
    decreases tys.len(),
{
    if tys.len() == 0 {
        0
    } else {
        size_spec(tys[0]@) + total_size_spec(tys.drop_first())
    }
}

/// The total word width of a sequence of primitive type names.
#[verifier::loop_isolation(false)]
pub fn get_total_size(tys: &[&str]) -> (r: usize)
    requires
        total_size_spec(tys@) <= usize::MAX,
    ensures
        r as nat == total_size_spec(tys@),
{
    let mut total: usize = 0;
    proof {
        assert(tys@.skip(0) =~= tys@);
    }
    let mut i: usize = 0;
    while i < tys.len()
        invariant
            0 <= i <= tys@.len(),
            total + total_size_spec(tys@.skip(i as int)) == total_size_spec(tys@),
        decreases tys@.len() - i,
    {
        proof {
            assert(tys@.skip(i as int)[0] == tys@[i as int]);
            assert(tys@.skip(i as int).drop_first() =~= tys@.skip(i + 1));
        }
        let sz = get_size(tys[i]);
        total = total + sz;
        i += 1;
    }
    proof {
        assert(tys@.skip(tys@.len() as int) =~= Seq::<&str>::empty());
    }
    total
}

/// Render one primitive read from the start of `words`.
fn parse_primitive(words: &[Word], t: &Vec<char>, hex: bool) -> (r: Vec<char>)
    ensures
        r@ == prim_spec(words@, t@, hex),
{
    let tt = trim_chars(t);
    if chars_eq(&tt, &['i', 'n', 't']) {
        if words.len() == 0 {
            Vec::new()
        } else if hex {
            hex_upper_chars(&word_be_bytes(words[0]))
        } else {
            word_chars(words[0])
        }
    } else if chars_eq(&tt, &['b', 'o', 'o', 'l']) {
        if words.len() == 0 {
            Vec::new()
        } else if hex {
            hex_upper_chars(&word_be_bytes(words[0]))
        } else {
            bool_word_chars(words[0])
        }
    } else if chars_eq(&tt, &['b', '2', '5', '6']) {
        if words.len() < 4 {
            Vec::new()
        } else {
            let mut bytes = word_be_bytes(words[0]);
            let mut b1 = word_be_bytes(words[1]);
            let mut b2 = word_be_bytes(words[2]);
            let mut b3 = word_be_bytes(words[3]);
            bytes.append(&mut b1);
            bytes.append(&mut b2);
            bytes.append(&mut b3);
            proof {
                assert(bytes@ =~= be_bytes_spec(words@[0]) + be_bytes_spec(words@[1])
                    + be_bytes_spec(words@[2]) + be_bytes_spec(words@[3]));
            }
            hex_upper_chars(&bytes)
        }
    } else {
        Vec::new()
    }
}

/// Join member renderings, trim, drop trailing commas.
fn finish_parts(parts: &Vec<Vec<char>>) -> (r: Vec<char>)
    ensures
        r@ == finish_join(chars_views(parts@)),
{
    let mut sep: Vec<char> = Vec::new();
    sep.push(',');
    sep.push(' ');
    proof {
        assert(sep@ =~= comma_sep());
    }
    let joined = join_chars(parts, &sep);
    let trimmed = trim_chars(&joined);
    strip_char_end(&trimmed, ',')
}

/// Render `words` as the (already offset-stripped) type `t`.
#[verifier::loop_isolation(false)]
#[verifier::rlimit(100)]
fn parse_ty(words: &[Word], t: &Vec<char>, hex: bool) -> (r: Vec<char>)
    ensures
        r@ == parse_ty_spec(words@, t@, hex),
{
    let words_len = words.len();
    proof {
        assert(words_len == words@.len());
    }
    let t = trim_chars(t);
    if t.len() > 0 && alpha_char(t[0]) && t[t.len() - 1] == ']' {
        proof {
            assert(t@.last() == ']');
        }
        let body = strip_char_end(&t, ']');
        let pieces = split_chars(&body, '[');
        if pieces.len() < 2 {
            return Vec::new();
        }
        proof {
            assert(chars_views(pieces@)[0] == pieces@[0 as int]@);
            assert(chars_views(pieces@)[1] == pieces@[1 as int]@);
        }
        let n = match parse_usize(&pieces[1]) {
            Some(n) => n,
            None => {
                return Vec::new();
            },
        };
        let size = prim_size(&pieces[0]);
        if size == 0 {
            return Vec::new();
        }
        let total = match size.checked_mul(n) {
            Some(total) => total,
            None => {
                proof {
                    assert(words@.len() < size_spec(pieces@[0 as int]@) * n) by (nonlinear_arith)
                        requires
                            size_spec(pieces@[0 as int]@) * n > usize::MAX,
                            words@.len() <= usize::MAX,
                    ;
                }
                return Vec::new();
            },
        };
        if words.len() < total {
            return Vec::new();
        }
        let ghost base_t = pieces@[0 as int]@;
        let mut parts: Vec<Vec<char>> = Vec::new();
        proof {
            assert(words@.skip(0) =~= words@);
            assert(chars_views(parts@) + chunk_parts(words@, base_t, size as nat, n as nat, hex)
                =~= chunk_parts(words@, base_t, size as nat, n as nat, hex));
        }
        let mut i: usize = 0;
        while i < n
            invariant
                0 <= i <= n,
                size as nat * n as nat <= words@.len(),
                1 <= size <= 4,
                chars_views(parts@) + chunk_parts(
                    words@.skip((i * size) as int),
                    base_t,
                    size as nat,
                    (n - i) as nat,
                    hex,
                ) == chunk_parts(words@, base_t, size as nat, n as nat, hex),
            decreases n - i,
        {
            proof {
                assert((i + 1) * size == i * size + size) by (nonlinear_arith);
                assert(i * size + size <= n * size) by (nonlinear_arith)
                    requires
                        i < n,
                        1 <= size,
                ;
                assert(n * size == size * n) by (nonlinear_arith);
            }
            let base = i * size;
            let chunk = words_range(words, base, base + size);
            let ghost wtail = words@.skip(base as int);
            proof {
                assert(chunk@ =~= wtail.take(size as int));
                assert(wtail.skip(size as int) =~= words@.skip((i + 1) * size));
            }
            let piece = parse_primitive(chunk.as_slice(), &pieces[0], hex);
            proof {
                crate::text::lemma_chars_views_push(parts@, piece);
                assert(chars_views(parts@).push(piece@) + chunk_parts(
                    words@.skip(((i + 1) * size) as int),
                    base_t,
                    size as nat,
                    (n - i - 1) as nat,
                    hex,
                ) =~= chars_views(parts@) + chunk_parts(
                    words@.skip((i * size) as int),
                    base_t,
                    size as nat,
                    (n - i) as nat,
                    hex,
                ));
            }
            parts.push(piece);
            i += 1;
        }
        proof {
            assert(chunk_parts(
                words@.skip((n * size) as int),
                base_t,
                size as nat,
                0nat,
                hex,
            ) =~= Seq::<Seq<char>>::empty());
            assert(chars_views(parts@) + Seq::<Seq<char>>::empty() =~= chars_views(parts@));
        }
        let inner = finish_parts(&parts);
        let mut out: Vec<char> = Vec::new();
        out.push('[');
        let mut i2: usize = 0;
        while i2 < inner.len()
            invariant
                0 <= i2 <= inner@.len(),
                out@ == seq!['['] + inner@.take(i2 as int),
            decreases inner@.len() - i2,
        {
            out.push(inner[i2]);
            proof {
                assert(seq!['['] + inner@.take(i2 + 1) =~= (seq!['['] + inner@.take(
                    i2 as int,
                )).push(inner@[i2 as int]));
            }
            i2 += 1;
        }
        out.push(']');
        proof {
            assert(inner@.take(inner@.len() as int) =~= inner@);
            assert(out@ =~= seq!['['] + inner@ + seq![']']);
        }
        out
    } else if t.len() > 0 && t[0] == '{' && t[t.len() - 1] == '}' {
        proof {
            assert(t@.last() == '}');
        }
        let inner_ty = strip_char_end(&strip_char_start(&t, '{'), '}');
        let pieces = split_chars(&inner_ty, ',');
        let ghost piece_views = chars_views(pieces@);
        // Sum the member widths; a sum beyond `usize` exceeds any real span.
        let mut total: usize = 0;
        proof {
            assert(piece_views.skip(0) =~= piece_views);
        }
        let mut i: usize = 0;
        let mut overflow = false;
        while i < pieces.len()
            invariant
                0 <= i <= pieces@.len(),
                piece_views == chars_views(pieces@),
                !overflow ==> total as nat + sizes_sum(piece_views.skip(i as int)) == sizes_sum(
                    piece_views,
                ),
                overflow ==> sizes_sum(piece_views) > usize::MAX,
            decreases pieces@.len() - i,
        {
            proof {
                assert(piece_views.skip(i as int)[0] == piece_views[i as int]);
                assert(piece_views.skip(i as int).drop_first() =~= piece_views.skip(i + 1));
            }
            let sz = prim_size(&pieces[i]);
            if !overflow {
                match total.checked_add(sz) {
                    Some(nt) => {
                        total = nt;
                    },
                    None => {
                        overflow = true;
                    },
                }
            }
            i += 1;
        }
        proof {
            assert(piece_views.skip(pieces@.len() as int) =~= Seq::<Seq<char>>::empty());
        }
        if overflow || words.len() < total {
            return Vec::new();
        }
        let mut parts: Vec<Vec<char>> = Vec::new();
        let mut start: usize = 0;
        proof {
            assert(words@.skip(0) =~= words@);
            assert(piece_views.skip(0) =~= piece_views);
            assert(chars_views(parts@) + tuple_parts(words@, piece_views, hex) =~= tuple_parts(
                words@,
                piece_views,
                hex,
            ));
        }
        let mut k: usize = 0;
        while k < pieces.len()
            invariant
                0 <= k <= pieces@.len(),
                piece_views == chars_views(pieces@),
                start as nat + sizes_sum(piece_views.skip(k as int)) <= words@.len(),
                chars_views(parts@) + tuple_parts(
                    words@.skip(start as int),
                    piece_views.skip(k as int),
                    hex,
                ) == tuple_parts(words@, piece_views, hex),
            decreases pieces@.len() - k,
        {
            proof {
                assert(piece_views.skip(k as int)[0] == piece_views[k as int]);
                assert(piece_views.skip(k as int).drop_first() =~= piece_views.skip(k + 1));
            }
            let sz = prim_size(&pieces[k]);
            let chunk = words_range(words, start, start + sz);
            let ghost wtail = words@.skip(start as int);
            proof {
                assert(chunk@ =~= wtail.take(sz as int));
                assert(wtail.skip(sz as int) =~= words@.skip(start + sz));
            }
            let piece = parse_primitive(chunk.as_slice(), &pieces[k], hex);
            proof {
                crate::text::lemma_chars_views_push(parts@, piece);
                assert(chars_views(parts@).push(piece@) + tuple_parts(
                    words@.skip((start + sz) as int),
                    piece_views.skip(k + 1),
                    hex,
                ) =~= chars_views(parts@) + tuple_parts(
                    words@.skip(start as int),
                    piece_views.skip(k as int),
                    hex,
                ));
            }
            parts.push(piece);
            start = start + sz;
            k += 1;
        }
        proof {
            assert(piece_views.skip(pieces@.len() as int) =~= Seq::<Seq<char>>::empty());
            assert(tuple_parts(words@.skip(start as int), Seq::<Seq<char>>::empty(), hex) =~= Seq::<
                Seq<char>,
            >::empty());
            assert(chars_views(parts@) + Seq::<Seq<char>>::empty() =~= chars_views(parts@));
        }
        let inner = finish_parts(&parts);
        let mut out: Vec<char> = Vec::new();
        out.push('{');
        out.push(' ');
        let mut i2: usize = 0;
        while i2 < inner.len()
            invariant
                0 <= i2 <= inner@.len(),
                out@ == seq!['{', ' '] + inner@.take(i2 as int),
            decreases inner@.len() - i2,
        {
            out.push(inner[i2]);
            proof {
                assert(seq!['{', ' '] + inner@.take(i2 + 1) =~= (seq!['{', ' '] + inner@.take(
                    i2 as int,
                )).push(inner@[i2 as int]));
            }
            i2 += 1;
        }
        out.push(' ');
        out.push('}');
        proof {
            assert(inner@.take(inner@.len() as int) =~= inner@);
            assert(out@ =~= seq!['{', ' '] + inner@ + seq![' ', '}']);
        }
        out
    } else {
        parse_primitive(words, &t, hex)
    }
}

/// Decode a span of the operand stack as a typed value for display: an
/// optional leading decimal offset, a primitive, array or tuple type, and an
/// optional trailing `HEX` marker. Malformed expressions and spans shorter
/// than the type render as the empty string, never as an error.
pub fn parse_type(words: &[Word], ty: &str) -> (r: String)
    ensures
        r@ == parse_type_spec(words@, ty@),
{
    let chars = str_chars(ty);
    let t0 = trim_chars(&chars);
    let hex = ends_with(&t0, &['H', 'E', 'X']);
    let stripped = strip_suffix_rep(t0, &['H', 'E', 'X']);
    let t1 = trim_chars(&stripped);
    let out: Vec<char>;
    if t1.len() > 0 && digit_char(t1[0]) {
        proof {
            crate::text::lemma_find_spec(t1@, ' ');
        }
        let tok = match find_char(&t1, ' ') {
            Some(i) => chars_range(&t1, 0, i),
            None => chars_range(&t1, 0, t1.len()),
        };
        proof {
            assert(t1@.subrange(0, t1@.len() as int) =~= t1@);
            assert(tok@ == first_token(t1@));
        }
        match parse_usize(&tok) {
            None => {
                out = Vec::new();
            },
            Some(pos) => {
                let t2s = strip_digits(&t1);
                let t2 = trim_chars(&t2s);
                if pos >= words.len() {
                    out = Vec::new();
                } else {
                    let tail = words_range(words, pos, words.len());
                    proof {
                        assert(tail@ =~= words@.skip(pos as int));
                    }
                    out = parse_ty(tail.as_slice(), &t2, hex);
                }
            },
        }
    } else {
        out = parse_ty(words, &t1, hex);
    }
    chars_string(&out)
}

} // verus!
