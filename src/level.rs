use vstd::prelude::*;
use vstd::slice::slice_subrange;

use crate::chunk::{on_grid, Chunk, ChunkLayer};

verus! {

/// Why a level file could not be read.
#[derive(Clone, Copy, Debug, PartialEq, Eq, Structural)]
pub enum LevelError {
    /// No layer of that name, or its text is not closed.
    MissingLayer,
    /// A chunk lacks its `<chunk ...>` opening tag.
    MissingChunkTag,
    /// A chunk's `x` or `y` attribute is missing or not an `i16`.
    BadCoordinate,
    /// A chunk holds fewer than 256 tile ids, or one is not an `i16`.
    BadTiles,
}

/// `pat` occurs in `s` at index `i`.
pub open spec fn matches_at(s: Seq<u8>, pat: Seq<u8>, i: int) -> bool {
    0 <= i && i + pat.len() <= s.len() && s.subrange(i, i + pat.len()) == pat
}

/// The first index at or after `i` where `pat` occurs in `s`.
pub open spec fn find_from(s: Seq<u8>, pat: Seq<u8>, i: int) -> Option<int>
    decreases s.len() + 1 - i,
{
    if i < 0 || i + pat.len() > s.len() {
        None
    } else if matches_at(s, pat, i) {
        Some(i)
    } else {
        find_from(s, pat, i + 1)
    }
}

proof fn lemma_find_bounds(s: Seq<u8>, pat: Seq<u8>, i: int)
    ensures
        match find_from(s, pat, i) {
            Some(k) => i <= k && k + pat.len() <= s.len() && matches_at(s, pat, k),
            None => true,
        },
    decreases s.len() + 1 - i,
{
    if i < 0 || i + pat.len() > s.len() {
    } else if matches_at(s, pat, i) {
    } else {
        lemma_find_bounds(s, pat, i + 1);
    }
}

fn matches_here(s: &[u8], pat: &[u8], i: usize) -> (r: bool)
    requires
        i + pat@.len() <= s@.len(),
    ensures
        r == matches_at(s@, pat@, i as int),
{
    let n = s.len();
    let mut j: usize = 0;
    while j < pat.len()
        invariant
            0 <= j <= pat@.len(),
            n == s@.len(),
            i + pat@.len() <= s@.len(),
            forall|t: int| 0 <= t < j ==> s@[i + t] == pat@[t],
        decreases pat@.len() - j,
    {
        if s[i + j] != pat[j] {
            assert(s@.subrange(i as int, i + pat@.len())[j as int] != pat@[j as int]);
            return false;
        }
        j += 1;
    }
    assert(s@.subrange(i as int, i + pat@.len()) =~= pat@);
    true
}

/// First index at or after `from` where `pat` occurs in `s`.
pub fn find(s: &[u8], pat: &[u8], from: usize) -> (r: Option<usize>)
    ensures
        match r {
            Some(k) => find_from(s@, pat@, from as int) == Some(k as int),
            None => find_from(s@, pat@, from as int) is None,
        },
{
    let mut i: usize = from;
    while i <= s.len() && pat.len() <= s.len() - i
        invariant
            from <= i,
            find_from(s@, pat@, from as int) == find_from(s@, pat@, i as int),
        decreases s@.len() + 1 - i,
    {
        if matches_here(s, pat, i) {
            return Some(i);
        }
        if pat.len() == 0 {
            assert(s@.subrange(i as int, i as int) =~= pat@);
        }
        i += 1;
    }
    None
}

/// Decimal value of a run of digits.
pub open spec fn digits_value(s: Seq<u8>) -> int
    decreases s.len(),
{
    if s.len() == 0 {
        0
    } else {
        digits_value(s.drop_last()) * 10 + (s.last() - 48)
    }
}

pub open spec fn is_digit(b: u8) -> bool {
    48 <= b <= 57
}

/// One or more decimal digits.
pub open spec fn all_digits(s: Seq<u8>) -> bool {
    s.len() > 0 && forall|i: int| 0 <= i < s.len() ==> is_digit(#[trigger] s[i])
}

/// The integer that `s` writes: an optional `+` or `-`, then digits.
pub open spec fn int_text(s: Seq<u8>) -> Option<int> {
    if s.len() > 0 && s[0] == 45 && all_digits(s.skip(1)) {
        Some(-digits_value(s.skip(1)))
    } else if s.len() > 0 && s[0] == 43 && all_digits(s.skip(1)) {
        Some(digits_value(s.skip(1)))
    } else if all_digits(s) {
        Some(digits_value(s))
    } else {
        None
    }
}

/// The `i16` that `s` writes, if it writes one in range.
pub open spec fn i16_text(s: Seq<u8>) -> Option<i16> {
    match int_text(s) {
        Some(v) => if i16::MIN <= v <= i16::MAX {
            Some(v as i16)
        } else {
            None
        },
        None => None,
    }
}

/// Value of the digits of `s` from `start` on: `Some` when they are one or
/// more digits, capped at 100000.
fn digits_capped(s: &[u8], start: usize) -> (r: Option<u32>)
    requires
        start <= s@.len(),
    ensures
        match r {
            Some(v) => all_digits(s@.skip(start as int)) && v == (if digits_value(
                s@.skip(start as int),
            ) > 100_000 {
                100_000
            } else {
                digits_value(s@.skip(start as int))
            }),
            None => !all_digits(s@.skip(start as int)),
        },
{
    let ghost d = s@.skip(start as int);
    if start == s.len() {
        return None;
    }
    let mut v: u32 = 0;
    let mut i: usize = start;
    while i < s.len()
        invariant
            start <= i <= s@.len(),
            d == s@.skip(start as int),
            forall|j: int| 0 <= j < i - start ==> is_digit(#[trigger] d[j]),
            v == (if digits_value(d.take(i - start)) > 100_000 {
                100_000
            } else {
                digits_value(d.take(i - start))
            }),
            digits_value(d.take(i - start)) >= 0,
        decreases s@.len() - i,
    {
        let b = s[i];
        if b < 48 || b > 57 {
            assert(!is_digit(d[i - start]));
            return None;
        }
        let ghost n = i - start;
        assert(d.take(n + 1).drop_last() =~= d.take(n));
        assert(d.take(n + 1).last() == b);
        let w: u32 = v * 10 + (b - 48) as u32;
        v = if w > 100_000 {
            100_000
        } else {
            w
        };
        i += 1;
    }
    assert(d.take(d.len() as int) =~= d);
    Some(v)
}

/// Reads an `i16` written as an optional sign and decimal digits.
pub fn parse_i16(s: &[u8]) -> (r: Option<i16>)
    ensures
        r == i16_text(s@),
{
    if s.len() > 0 && (s[0] == 45 || s[0] == 43) {
        match digits_capped(s, 1) {
            Some(v) => {
                if s[0] == 45 {
                    if v <= 32768 {
                        Some((-(v as i32)) as i16)
                    } else {
                        None
                    }
                } else if v <= 32767 {
                    Some(v as i16)
                } else {
                    None
                }
            },
            None => {
                proof {
                    if s@[0] != 45 && s@[0] != 43 {
                    }
                    if all_digits(s@) {
                        assert(is_digit(s@[0]));
                    }
                }
                None
            },
        }
    } else {
        assert(s@.skip(0) =~= s@);
        match digits_capped(s, 0) {
            Some(v) => {
                if v <= 32767 {
                    Some(v as i16)
                } else {
                    None
                }
            },
            None => None,
        }
    }
}

/// `<chunk `
pub open spec fn chunk_open() -> Seq<u8> {
    seq![60u8, 99, 104, 117, 110, 107, 32]
}

/// `</chunk>`
pub open spec fn chunk_close() -> Seq<u8> {
    seq![60u8, 47, 99, 104, 117, 110, 107, 62]
}

/// `x="`
pub open spec fn x_key() -> Seq<u8> {
    seq![120u8, 61, 34]
}

/// `y="`
pub open spec fn y_key() -> Seq<u8> {
    seq![121u8, 61, 34]
}

pub open spec fn is_space(b: u8) -> bool {
    b == 32 || (9 <= b <= 13)
}

pub open spec fn trim_start(s: Seq<u8>) -> Seq<u8>
    decreases s.len(),
{
    if s.len() > 0 && is_space(s[0]) {
        trim_start(s.skip(1))
    } else {
        s
    }
}

pub open spec fn trim_end(s: Seq<u8>) -> Seq<u8>
    decreases s.len(),
{
    if s.len() > 0 && is_space(s.last()) {
        trim_end(s.drop_last())
    } else {
        s
    }
}

/// `s` without leading and trailing ASCII white space (tab, line feed,
/// vertical tab, form feed, carriage return, space); other Unicode white
/// space is kept.
pub open spec fn trim(s: Seq<u8>) -> Seq<u8> {
    trim_end(trim_start(s))
}

fn trimmed(s: &[u8]) -> (r: &[u8])
    ensures
        r@ == trim(s@),
{
    let n = s.len();
    let mut a: usize = 0;
    assert(s@.skip(0) =~= s@);
    while a < n && (s[a] == 32 || (9 <= s[a] && s[a] <= 13))
        invariant
            0 <= a <= n,
            n == s@.len(),
            trim_start(s@) == trim_start(s@.skip(a as int)),
        decreases n - a,
    {
        assert(s@.skip(a as int).skip(1) =~= s@.skip(a + 1));
        a += 1;
    }
    assert(trim_start(s@) == s@.skip(a as int));
    let mut b: usize = n;
    while b > a && (s[b - 1] == 32 || (9 <= s[b - 1] && s[b - 1] <= 13))
        invariant
            a <= b <= n,
            n == s@.len(),
            trim(s@) == trim_end(s@.subrange(a as int, b as int)),
        decreases b - a,
    {
        assert(s@.subrange(a as int, b as int).drop_last() =~= s@.subrange(a as int, b - 1));
        b -= 1;
    }
    assert(s@.skip(a as int) =~= s@.subrange(a as int, n as int));
    slice_subrange(s, a, b)
}

/// The comma-separated fields of `s` from index `p` on.
pub open spec fn fields_from(s: Seq<u8>, p: int) -> Seq<Seq<u8>>
    decreases s.len() + 1 - p,
{
    if p < 0 || p > s.len() {
        Seq::empty()
    } else {
        match find_from(s, seq![44u8], p) {
            Some(e) => if p <= e && e <= s.len() {
                seq![s.subrange(p, e)] + fields_from(s, e + 1)
            } else {
                Seq::empty()
            },
            None => seq![s.subrange(p, s.len() as int)],
        }
    }
}

/// The 256 tile ids of a chunk's data: the first 256 comma-separated
/// fields, each an `i16` between optional white space.
pub open spec fn tile_list(data: Seq<u8>) -> Option<Seq<i16>> {
    let f = fields_from(data, 0);
    if f.len() >= 256 && forall|k: int| 0 <= k < 256 ==> (#[trigger] i16_text(trim(f[k]))) is Some {
        Some(Seq::new(256, |k: int| i16_text(trim(f[k]))->0))
    } else {
        None
    }
}

/// The value of attribute `key` (written with its `="`) in a tag.
pub open spec fn attribute(tag: Seq<u8>, key: Seq<u8>) -> Option<i16> {
    match find_from(tag, key, 0) {
        None => None,
        Some(k) => {
            let rest = tag.skip(k + key.len());
            match find_from(rest, seq![34u8], 0) {
                None => None,
                Some(q) => i16_text(rest.take(q)),
            }
        },
    }
}

/// A chunk record: `<chunk x=".." y=".." ...>` then its tile ids.
pub open spec fn chunk_text(s: Seq<u8>) -> Result<(i16, i16, Seq<i16>), LevelError> {
    match find_from(s, chunk_open(), 0) {
        None => Err(LevelError::MissingChunkTag),
        Some(o) => {
            let after = s.skip(o + 7);
            match find_from(after, seq![62u8], 0) {
                None => Err(LevelError::MissingChunkTag),
                Some(c) => {
                    let tag = after.take(c);
                    let data = after.skip(c + 1);
                    match (attribute(tag, x_key()), attribute(tag, y_key())) {
                        (Some(x), Some(y)) => match tile_list(data) {
                            Some(t) => Ok((x, y, t)),
                            None => Err(LevelError::BadTiles),
                        },
                        _ => Err(LevelError::BadCoordinate),
                    }
                },
            }
        },
    }
}

proof fn lemma_fields_step(s: Seq<u8>, p: int)
    requires
        0 <= p <= s.len(),
    ensures
        fields_from(s, p).len() >= 1,
        match find_from(s, seq![44u8], p) {
            Some(e) => p <= e < s.len() && fields_from(s, p)[0] == s.subrange(p, e) && fields_from(
                s,
                p,
            ).skip(1) == fields_from(s, e + 1),
            None => fields_from(s, p)[0] == s.subrange(p, s.len() as int) && fields_from(
                s,
                p,
            ).len() == 1 && fields_from(s, s.len() + 1int).len() == 0,
        },
{
    lemma_find_bounds(s, seq![44u8], p);
    match find_from(s, seq![44u8], p) {
        Some(e) => {
            assert(fields_from(s, p).skip(1) =~= fields_from(s, e + 1));
        },
        None => {},
    }
}

fn tiles_of(data: &[u8]) -> (r: Option<Vec<i16>>)
    ensures
        match r {
            Some(t) => tile_list(data@) == Some(t@),
            None => tile_list(data@) is None,
        },
{
    let ghost f = fields_from(data@, 0);
    let comma: [u8; 1] = [44];
    assert(comma@ =~= seq![44u8]);
    let n = data.len();
    let mut tiles: Vec<i16> = Vec::new();
    let mut p: usize = 0;
    let mut more = true;
    let mut k: usize = 0;
    while k < 256
        invariant
            0 <= k <= 256,
            n == data@.len(),
            comma@ == seq![44u8],
            f == fields_from(data@, 0),
            p <= n,
            f.len() >= k,
            more ==> f.skip(k as int) == fields_from(data@, p as int),
            !more ==> f.len() == k,
            tiles@.len() == k,
            forall|j: int| 0 <= j < k ==> i16_text(trim(#[trigger] f[j])) == Some(tiles@[j]),
        decreases 256 - k,
    {
        if !more {
            return None;
        }
        proof {
            lemma_fields_step(data@, p as int);
            assert(f[k as int] == f.skip(k as int)[0]);
        }
        let field = match find(data, comma.as_slice(), p) {
            Some(e) => {
                let field = slice_subrange(data, p, e);
                assert(f.skip(k + 1) =~= f.skip(k as int).skip(1));
                p = e + 1;
                field
            },
            None => {
                let field = slice_subrange(data, p, n);
                assert(f.skip(k as int).len() == 1);
                more = false;
                field
            },
        };
        match parse_i16(trimmed(field)) {
            Some(t) => {
                tiles.push(t);
            },
            None => {
                return None;
            },
        }
        k += 1;
    }
    proof {
        let want = Seq::new(256, |j: int| i16_text(trim(f[j]))->0);
        assert(tiles@ =~= want);
    }
    Some(tiles)
}

fn attribute_value(tag: &[u8], key: &[u8]) -> (r: Option<i16>)
    ensures
        r == attribute(tag@, key@),
{
    match find(tag, key, 0) {
        None => None,
        Some(k) => {
            proof {
                lemma_find_bounds(tag@, key@, 0);
            }
            let tl = tag.len();
            let rest = slice_subrange(tag, k + key.len(), tl);
            assert(rest@ =~= tag@.skip(k + key@.len()));
            let quote: [u8; 1] = [34];
            assert(quote@ =~= seq![34u8]);
            match find(rest, quote.as_slice(), 0) {
                None => None,
                Some(q) => {
                    proof {
                        lemma_find_bounds(rest@, seq![34u8], 0);
                    }
                    let v = slice_subrange(rest, 0, q);
                    assert(v@ =~= rest@.take(q as int));
                    parse_i16(v)
                },
            }
        },
    }
}

/// Reads one chunk record.
pub fn parse_chunk(s: &[u8]) -> (r: Result<Chunk, LevelError>)
    ensures
        match r {
            Ok(c) => chunk_text(s@) == Ok::<(i16, i16, Seq<i16>), LevelError>((c.x, c.y, c.tiles@)),
            Err(e) => chunk_text(s@) == Err::<(i16, i16, Seq<i16>), LevelError>(e),
        },
{
    let open: [u8; 7] = [60, 99, 104, 117, 110, 107, 32];
    assert(open@ =~= chunk_open());
    let o = match find(s, open.as_slice(), 0) {
        Some(o) => o,
        None => {
            return Err(LevelError::MissingChunkTag);
        },
    };
    proof {
        lemma_find_bounds(s@, chunk_open(), 0);
    }
    let sl = s.len();
    let after = slice_subrange(s, o + 7, sl);
    assert(after@ =~= s@.skip(o + 7));
    let gt: [u8; 1] = [62];
    assert(gt@ =~= seq![62u8]);
    let c = match find(after, gt.as_slice(), 0) {
        Some(c) => c,
        None => {
            return Err(LevelError::MissingChunkTag);
        },
    };
    proof {
        lemma_find_bounds(after@, seq![62u8], 0);
    }
    let tag = slice_subrange(after, 0, c);
    let data = slice_subrange(after, c + 1, after.len());
    assert(tag@ =~= after@.take(c as int));
    assert(data@ =~= after@.skip(c + 1));
    let xk: [u8; 3] = [120, 61, 34];
    let yk: [u8; 3] = [121, 61, 34];
    assert(xk@ =~= x_key());
    assert(yk@ =~= y_key());
    let x = attribute_value(tag, xk.as_slice());
    let y = attribute_value(tag, yk.as_slice());
    match (x, y) {
        (Some(x), Some(y)) => match tiles_of(data) {
            Some(tiles) => Ok(Chunk { x, y, tiles }),
            None => Err(LevelError::BadTiles),
        },
        _ => Err(LevelError::BadCoordinate),
    }
}

/// `</layer>`
pub open spec fn layer_close() -> Seq<u8> {
    seq![60u8, 47, 108, 97, 121, 101, 114, 62]
}

/// ` name="`
pub open spec fn name_prefix() -> Seq<u8> {
    seq![32u8, 110, 97, 109, 101, 61, 34]
}

/// The texts before each `</chunk>` from index `p` on.
pub open spec fn pieces_from(s: Seq<u8>, p: int) -> Seq<Seq<u8>>
    decreases s.len() - p,
{
    if p < 0 || p > s.len() {
        Seq::empty()
    } else {
        match find_from(s, chunk_close(), p) {
            Some(k) => if p <= k && k + 8 <= s.len() {
                seq![s.subrange(p, k)] + pieces_from(s, k + 8)
            } else {
                Seq::empty()
            },
            None => Seq::empty(),
        }
    }
}

/// Every chunk record in order, or the error of the first bad one.
pub open spec fn parse_all(pieces: Seq<Seq<u8>>) -> Result<Seq<(i16, i16, Seq<i16>)>, LevelError>
    decreases pieces.len(),
{
    if pieces.len() == 0 {
        Ok(Seq::empty())
    } else {
        match parse_all(pieces.drop_last()) {
            Err(e) => Err(e),
            Ok(v) => match chunk_text(pieces.last()) {
                Err(e) => Err(e),
                Ok(c) => Ok(v.push(c)),
            },
        }
    }
}

/// The layer that holds these chunks, later ones replacing earlier ones at
/// the same origin; chunks off the grid are left out.
pub open spec fn layer_of(chunks: Seq<(i16, i16, Seq<i16>)>) -> Map<(int, int), Seq<i16>>
    decreases chunks.len(),
{
    if chunks.len() == 0 {
        Map::empty()
    } else {
        let m = layer_of(chunks.drop_last());
        let c = chunks.last();
        if on_grid(c.0 as int, c.1 as int) && c.2.len() == 256 {
            m.insert((c.0 as int, c.1 as int), c.2)
        } else {
            m
        }
    }
}

/// The layer written in `s`.
pub open spec fn chunks_text(s: Seq<u8>) -> Result<Map<(int, int), Seq<i16>>, LevelError> {
    match parse_all(pieces_from(s, 0)) {
        Err(e) => Err(e),
        Ok(cs) => Ok(layer_of(cs)),
    }
}

proof fn lemma_pieces_step(s: Seq<u8>, p: int)
    requires
        0 <= p <= s.len(),
    ensures
        match find_from(s, chunk_close(), p) {
            Some(k) => p <= k && k + 8 <= s.len() && pieces_from(s, p) == seq![s.subrange(p, k)]
                + pieces_from(s, k + 8),
            None => pieces_from(s, p).len() == 0,
        },
{
    lemma_find_bounds(s, chunk_close(), p);
}

proof fn lemma_parse_all_prefix(pieces: Seq<Seq<u8>>, i: int)
    requires
        0 <= i <= pieces.len(),
        parse_all(pieces.take(i)) is Err,
    ensures
        parse_all(pieces) == parse_all(pieces.take(i)),
    decreases pieces.len() - i,
{
    if i < pieces.len() {
        assert(pieces.take(i + 1).drop_last() =~= pieces.take(i));
        lemma_parse_all_prefix(pieces, i + 1);
    } else {
        assert(pieces.take(i) =~= pieces);
    }
}

/// Reads every chunk record of a layer's text into a layer.
pub fn get_all_chunks(s: &[u8]) -> (r: Result<ChunkLayer, LevelError>)
    ensures
        match r {
            Ok(layer) => chunks_text(s@) == Ok::<Map<(int, int), Seq<i16>>, LevelError>(layer@),
            Err(e) => chunks_text(s@) == Err::<Map<(int, int), Seq<i16>>, LevelError>(e),
        },
{
    let ghost all = pieces_from(s@, 0);
    let close: [u8; 8] = [60, 47, 99, 104, 117, 110, 107, 62];
    assert(close@ =~= chunk_close());
    let n = s.len();
    let mut layer = ChunkLayer::new();
    let ghost mut parsed: Seq<(i16, i16, Seq<i16>)> = Seq::empty();
    let ghost mut i: int = 0;
    let mut p: usize = 0;
    assert(all.take(0) =~= Seq::<Seq<u8>>::empty());
    assert(all =~= all.take(0) + pieces_from(s@, 0));
    loop
        invariant
            n == s@.len(),
            close@ == chunk_close(),
            p <= n,
            0 <= i <= all.len(),
            all == pieces_from(s@, 0),
            all == all.take(i) + pieces_from(s@, p as int),
            parse_all(all.take(i)) == Ok::<Seq<(i16, i16, Seq<i16>)>, LevelError>(parsed),
            layer@ == layer_of(parsed),
        decreases n - p,
    {
        proof {
            lemma_pieces_step(s@, p as int);
        }
        let k = match find(s, close.as_slice(), p) {
            Some(k) => k,
            None => {
                assert(all.take(i) =~= all);
                return Ok(layer);
            },
        };
        let piece = slice_subrange(s, p, k);
        let ghost rest = pieces_from(s@, k + 8);
        proof {
            assert(all[i] == piece@ && all.take(i + 1) =~= all.take(i).push(piece@));
            assert(all.take(i + 1).drop_last() =~= all.take(i));
            assert(all =~= all.take(i + 1) + rest);
        }
        match parse_chunk(piece) {
            Ok(chunk) => {
                let ghost c = (chunk.x, chunk.y, chunk.tiles@);
                layer.insert(chunk);
                proof {
                    let before = parsed;
                    parsed = parsed.push(c);
                    assert(parsed.drop_last() =~= before);
                    assert(parsed.last() == c);
                    i = i + 1;
                }
                p = k + 8;
            },
            Err(e) => {
                proof {
                    lemma_parse_all_prefix(all, i + 1);
                }
                return Err(e);
            },
        }
    }
}

/// The text of the layer called `name`: after the first ` name="{name}`
/// and the `>` that follows, up to `</layer>`.
pub open spec fn layer_span(s: Seq<u8>, name: Seq<u8>) -> Option<(int, int)> {
    let pat = name_prefix() + name;
    match find_from(s, pat, 0) {
        None => None,
        Some(k) => match find_from(s, seq![62u8], k + pat.len()) {
            None => None,
            Some(g) => match find_from(s, layer_close(), g + 1) {
                None => None,
                Some(e) => Some((g + 1, e)),
            },
        },
    }
}

/// Finds the text of the layer called `name`.
pub fn get_layer<'a>(xml: &'a [u8], name: &[u8]) -> (r: Result<&'a [u8], LevelError>)
    ensures
        match r {
            Ok(t) => layer_span(xml@, name@) matches Some((a, b)) && a <= b && t@ == xml@.subrange(
                a,
                b,
            ),
            Err(e) => e == LevelError::MissingLayer && layer_span(xml@, name@) is None,
        },
{
    let mut pat: Vec<u8> = vec![32, 110, 97, 109, 101, 61, 34];
    assert(pat@ =~= name_prefix());
    let mut j: usize = 0;
    while j < name.len()
        invariant
            0 <= j <= name@.len(),
            pat@ == name_prefix() + name@.take(j as int),
        decreases name@.len() - j,
    {
        pat.push(name[j]);
        j += 1;
        assert(pat@ =~= name_prefix() + name@.take(j as int));
    }
    assert(name@.take(name@.len() as int) =~= name@);
    let n = xml.len();
    let k = match find(xml, pat.as_slice(), 0) {
        Some(k) => k,
        None => {
            return Err(LevelError::MissingLayer);
        },
    };
    proof {
        lemma_find_bounds(xml@, pat@, 0);
    }
    let gt: [u8; 1] = [62];
    assert(gt@ =~= seq![62u8]);
    let g = match find(xml, gt.as_slice(), k + pat.len()) {
        Some(g) => g,
        None => {
            return Err(LevelError::MissingLayer);
        },
    };
    proof {
        lemma_find_bounds(xml@, seq![62u8], k + pat@.len());
    }
    let close: [u8; 8] = [60, 47, 108, 97, 121, 101, 114, 62];
    assert(close@ =~= layer_close());
    let e = match find(xml, close.as_slice(), g + 1) {
        Some(e) => e,
        None => {
            return Err(LevelError::MissingLayer);
        },
    };
    proof {
        lemma_find_bounds(xml@, layer_close(), g + 1);
    }
    Ok(slice_subrange(xml, g + 1, e))
}

pub open spec fn collision_name() -> Seq<u8> {
    seq![99u8, 111, 108, 108, 105, 115, 105, 111, 110]
}

pub open spec fn detail_name() -> Seq<u8> {
    seq![100u8, 101, 116, 97, 105, 108]
}

pub open spec fn special_name() -> Seq<u8> {
    seq![115u8, 112, 101, 99, 105, 97, 108]
}

pub open spec fn background_name() -> Seq<u8> {
    seq![98u8, 97, 99, 107, 103, 114, 111, 117, 110, 100]
}

/// The layer called `name` in a level file.
pub open spec fn named_layer(s: Seq<u8>, name: Seq<u8>) -> Result<Map<(int, int), Seq<i16>>, LevelError> {
    match layer_span(s, name) {
        None => Err(LevelError::MissingLayer),
        Some((a, b)) => chunks_text(s.subrange(a, b)),
    }
}

/// The four layers of a level file (collision, detail, special,
/// background): a missing layer is reported first, then the first bad
/// chunk of the special, collision, detail and background layers, in that
/// order.
pub open spec fn level_text(s: Seq<u8>) -> Result<
    (
        Map<(int, int), Seq<i16>>,
        Map<(int, int), Seq<i16>>,
        Map<(int, int), Seq<i16>>,
        Map<(int, int), Seq<i16>>,
    ),
    LevelError,
> {
    if layer_span(s, collision_name()) is None || layer_span(s, detail_name()) is None
        || layer_span(s, special_name()) is None || layer_span(s, background_name()) is None {
        Err(LevelError::MissingLayer)
    } else {
        match (
            named_layer(s, special_name()),
            named_layer(s, collision_name()),
            named_layer(s, detail_name()),
            named_layer(s, background_name()),
        ) {
            (Err(e), _, _, _) => Err(e),
            (Ok(_), Err(e), _, _) => Err(e),
            (Ok(_), Ok(_), Err(e), _) => Err(e),
            (Ok(_), Ok(_), Ok(_), Err(e)) => Err(e),
            (Ok(sp), Ok(co), Ok(de), Ok(bg)) => Ok((co, de, sp, bg)),
        }
    }
}

} // verus!
