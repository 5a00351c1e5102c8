//! Layout of the `.npy` file that holds the colorizer's 313 chroma hull points:
//! the magic bytes, the header span, the element type and the array shape. Reading
//! the numbers themselves is left to the caller.

use vstd::prelude::*;
use vstd::string::*;
use vstd::slice::slice_subrange;
use crate::text::{
    find_first, find_last, first_index, last_index, lemma_first_index_bound, lemma_last_index_bound, occurs_at,
    parse_usize, parse_usize_spec, text_eq,
};

verus! {

/// The six bytes every `.npy` file starts with: `\x93NUMPY`.
pub open spec fn npy_magic() -> Seq<u8> {
    seq![0x93u8, 0x4eu8, 0x55u8, 0x4du8, 0x50u8, 0x59u8]
}

pub open spec fn has_npy_magic(b: Seq<u8>) -> bool {
    b.len() >= 6 && b.subrange(0, 6) == npy_magic()
}

/// Where the header text starts: after 10 bytes in format version 1, after 12 otherwise.
pub open spec fn header_start(b: Seq<u8>) -> int {
    if b[6] == 1 { 10 } else { 12 }
}

/// Length of the header text, little-endian: 2 bytes in version 1, 4 otherwise.
pub open spec fn header_length(b: Seq<u8>) -> int {
    if b[6] == 1 {
        b[8] + 256 * b[9]
    } else {
        b[8] + 256 * b[9] + 65536 * b[10] + 16777216 * b[11]
    }
}

/// The header fields and the header text all lie inside the file.
pub open spec fn header_in_file(b: Seq<u8>) -> bool {
    &&& b.len() >= 7
    &&& header_start(b) <= b.len()
    &&& header_start(b) + header_length(b) <= b.len()
}

/// `String::from_utf8_lossy` of the bytes: valid UTF-8 decoded, invalid sequences
/// replaced by U+FFFD.
pub uninterp spec fn utf8_lossy(bytes: Seq<u8>) -> Seq<char>;

/// `String::from_utf8_lossy` (std). The claim is only that the result is the named
/// function of the bytes; nothing is said about how UTF-8 is decoded.
#[verifier::external_body]
fn lossy_text(bytes: &[u8]) -> (s: String)
    ensures
        s@ == utf8_lossy(bytes@),
{
    String::from_utf8_lossy(bytes).into_owned()
}

/// The header text of a file whose header lies inside it.
pub open spec fn header_text(b: Seq<u8>) -> Seq<char> {
    utf8_lossy(b.subrange(header_start(b), header_start(b) + header_length(b)))
}

/// Pieces of `s` between the occurrences of `c`, as `str::split` yields them.
pub closed spec fn split_char(s: Seq<char>, c: char) -> Seq<Seq<char>>
    decreases s.len(),
{
    let i = first_index(s, c);
    if i >= s.len() {
        seq![s]
    } else {
        proof {
            lemma_first_index_bound(s, c);
        }
        seq![s.subrange(0, i)] + split_char(s.subrange(i + 1, s.len() as int), c)
    }
}

/// The element type text: the fourth piece of the header split at `'`.
pub open spec fn descr_of(h: Seq<char>) -> Option<Seq<char>> {
    let parts = split_char(h, '\'');
    if parts.len() > 3 {
        Some(parts[3])
    } else {
        None
    }
}

/// Position of the first occurrence of `pat` in `s` at or after `from`, or -1.
pub open spec fn find_text_from(s: Seq<char>, pat: Seq<char>, from: int) -> int
    decreases s.len() + 1 - from,
{
    if from < 0 || from + pat.len() > s.len() {
        -1
    } else if occurs_at(s, pat, from) {
        from
    } else {
        find_text_from(s, pat, from + 1)
    }
}

/// The key that introduces the shape in the header: `'shape'`.
pub open spec fn shape_key() -> Seq<char> {
    seq!['\'', 's', 'h', 'a', 'p', 'e', '\'']
}

/// The second piece of the header split at `'shape'`: the text after the key up to
/// the next occurrence of the key (or the end). `None` without the key.
pub open spec fn shape_piece(h: Seq<char>) -> Option<Seq<char>> {
    let i = find_text_from(h, shape_key(), 0);
    if i < 0 {
        None
    } else {
        let j = find_text_from(h, shape_key(), i + 7);
        Some(h.subrange(i + 7, if j < 0 { h.len() as int } else { j }))
    }
}

/// Unicode white space (the `White_Space` property that `str::trim` removes).
pub open spec fn is_white(c: char) -> bool {
    let v = c as int;
    ||| 9 <= v <= 13
    ||| v == 32
    ||| v == 0x85
    ||| v == 0xa0
    ||| v == 0x1680
    ||| 0x2000 <= v <= 0x200a
    ||| v == 0x2028
    ||| v == 0x2029
    ||| v == 0x202f
    ||| v == 0x205f
    ||| v == 0x3000
}

pub open spec fn trim_start_ws(s: Seq<char>) -> Seq<char>
    decreases s.len(),
{
    if s.len() > 0 && is_white(s[0]) {
        trim_start_ws(s.drop_first())
    } else {
        s
    }
}

pub open spec fn trim_end_ws(s: Seq<char>) -> Seq<char>
    decreases s.len(),
{
    if s.len() > 0 && is_white(s.last()) {
        trim_end_ws(s.drop_last())
    } else {
        s
    }
}

/// `s` without leading and trailing white space, as `str::trim` gives it.
pub open spec fn trim_ws(s: Seq<char>) -> Seq<char> {
    trim_end_ws(trim_start_ws(s))
}

/// The numbers among the pieces, each read after trimming; other pieces are skipped.
pub open spec fn dims_of(pieces: Seq<Seq<char>>) -> Seq<usize>
    decreases pieces.len(),
{
    if pieces.len() == 0 {
        Seq::empty()
    } else {
        let rest = dims_of(pieces.drop_first());
        match parse_usize_spec(trim_ws(pieces[0])) {
            Some(v) => seq![v] + rest,
            None => rest,
        }
    }
}

/// Element type of the hull array.
#[derive(Clone, Copy)]
pub enum NpyDtype {
    /// 4-byte floats (`<f4`, `|f4`).
    F4,
    /// 8-byte floats (`<f8`, `|f8`).
    F8,
    /// 8-byte signed integers (`<i8`, `|i8`).
    I8,
}

pub open spec fn dtype_of(descr: Seq<char>) -> Option<NpyDtype> {
    if descr == "<f4"@ || descr == "|f4"@ {
        Some(NpyDtype::F4)
    } else if descr == "<f8"@ || descr == "|f8"@ {
        Some(NpyDtype::F8)
    } else if descr == "<i8"@ || descr == "|i8"@ {
        Some(NpyDtype::I8)
    } else {
        None
    }
}

/// Where the hull numbers are and how to read them.
pub struct HullLayout {
    pub dtype: NpyDtype,
    /// The array is stored as 2 x 313 rather than 313 x 2.
    pub transposed: bool,
    /// Offset of the first number in the file.
    pub data_offset: usize,
}

/// Why a file is no hull array.
pub enum NpyError {
    NotNumpy,
    /// The header has no element type.
    DescrMissing,
    /// The header has no `'shape'` key.
    ShapeKeyMissing,
    /// The shape has no `(`.
    ShapeOpenMissing,
    /// The shape has no `)`.
    ShapeCloseMissing,
    /// The element type is none of the supported ones.
    UnsupportedDtype(String),
    /// The shape is neither 313 x 2 nor 2 x 313.
    UnexpectedShape(Vec<usize>),
}

/// What reading the layout of a file gives, as mathematical values.
pub enum LayoutOutcome {
    Layout { dtype: NpyDtype, transposed: bool, data_offset: int },
    NotNumpy,
    DescrMissing,
    ShapeKeyMissing,
    ShapeOpenMissing,
    ShapeCloseMissing,
    UnsupportedDtype(Seq<char>),
    UnexpectedShape(Seq<usize>),
}

pub open spec fn outcome_of(r: Result<HullLayout, NpyError>) -> LayoutOutcome {
    match r {
        Ok(l) => LayoutOutcome::Layout {
            dtype: l.dtype,
            transposed: l.transposed,
            data_offset: l.data_offset as int,
        },
        Err(NpyError::NotNumpy) => LayoutOutcome::NotNumpy,
        Err(NpyError::DescrMissing) => LayoutOutcome::DescrMissing,
        Err(NpyError::ShapeKeyMissing) => LayoutOutcome::ShapeKeyMissing,
        Err(NpyError::ShapeOpenMissing) => LayoutOutcome::ShapeOpenMissing,
        Err(NpyError::ShapeCloseMissing) => LayoutOutcome::ShapeCloseMissing,
        Err(NpyError::UnsupportedDtype(d)) => LayoutOutcome::UnsupportedDtype(d@),
        Err(NpyError::UnexpectedShape(d)) => LayoutOutcome::UnexpectedShape(d@),
    }
}

/// The layout of the hull file `b`, checked in this order: the magic bytes, the
/// element type text, the shape key, the shape's `(` and `)`, the element type, and
/// the shape (313 x 2, or 2 x 313 stored transposed). The numbers start right after
/// the header.
pub open spec fn hull_layout_spec(b: Seq<u8>) -> LayoutOutcome {
    if !has_npy_magic(b) {
        LayoutOutcome::NotNumpy
    } else {
        let h = header_text(b);
        match descr_of(h) {
            None => LayoutOutcome::DescrMissing,
            Some(descr) => match shape_piece(h) {
                None => LayoutOutcome::ShapeKeyMissing,
                Some(sp) => {
                    let open = first_index(sp, '(');
                    let close = last_index(sp, ')');
                    if open >= sp.len() {
                        LayoutOutcome::ShapeOpenMissing
                    } else if close < 0 {
                        LayoutOutcome::ShapeCloseMissing
                    } else {
                        let dims = dims_of(split_char(sp.subrange(open + 1, close), ','));
                        match dtype_of(descr) {
                            None => LayoutOutcome::UnsupportedDtype(descr),
                            Some(dt) => if dims == seq![313usize, 2usize] {
                                LayoutOutcome::Layout {
                                    dtype: dt,
                                    transposed: false,
                                    data_offset: header_start(b) + header_length(b),
                                }
                            } else if dims == seq![2usize, 313usize] {
                                LayoutOutcome::Layout {
                                    dtype: dt,
                                    transposed: true,
                                    data_offset: header_start(b) + header_length(b),
                                }
                            } else {
                                LayoutOutcome::UnexpectedShape(dims)
                            },
                        }
                    }
                },
            },
        }
    }
}

/// Reading the layout stays inside the file and inside the header: the header lies
/// in the file, and where the shape has both brackets, its last `)` comes after its
/// first `(`.
pub open spec fn npy_readable(b: Seq<u8>) -> bool {
    has_npy_magic(b) ==> {
        &&& header_in_file(b)
        &&& descr_of(header_text(b)) is Some ==> match shape_piece(header_text(b)) {
            Some(sp) => first_index(sp, '(') < sp.len() && last_index(sp, ')') >= 0 ==> last_index(sp, ')')
                >= first_index(sp, '(') + 1,
            None => true,
        }
    }
}

/// Piece `k` of `s` split at `c`, if there are that many.
fn nth_piece(s: &str, c: char, k: usize) -> (r: Option<&str>)
    ensures
        match r {
            Some(t) => k < split_char(s@, c).len() && t@ == split_char(s@, c)[k as int],
            None => k >= split_char(s@, c).len(),
        },
    decreases k,
{
    let n = s.unicode_len();
    let i = find_first(s, c);
    proof {
        lemma_first_index_bound(s@, c);
        if i >= n {
            assert(s@.subrange(0, i as int) =~= s@);
        }
    }
    if k == 0 {
        Some(s.substring_char(0, i))
    } else if i >= n {
        None
    } else {
        nth_piece(s.substring_char(i + 1, n), c, k - 1)
    }
}

/// Position of the first occurrence of `pat` in `s` at or after `from`, if any.
fn find_text(s: &str, pat: &str, from: usize) -> (r: Option<usize>)
    requires
        pat@.len() > 0,
    ensures
        match r {
            Some(i) => i as int == find_text_from(s@, pat@, from as int) && from <= i && i + pat@.len() <= s@.len(),
            None => find_text_from(s@, pat@, from as int) == -1,
        },
{
    let n = s.unicode_len();
    let m = pat.unicode_len();
    let mut i = from;
    while i <= n && m <= n - i
        invariant
            from <= i,
            n == s@.len(),
            m == pat@.len(),
            m > 0,
            find_text_from(s@, pat@, from as int) == find_text_from(s@, pat@, i as int),
        decreases n + 1 - i,
    {
        let window = s.substring_char(i, i + m);
        if text_eq(window, pat) {
            assert(occurs_at(s@, pat@, i as int));
            return Some(i);
        }
        i += 1;
    }
    None
}

/// The shape piece of a header (see `shape_piece`).
fn shape_text(h: &str) -> (r: Option<&str>)
    ensures
        match r {
            Some(t) => shape_piece(h@) == Some(t@),
            None => shape_piece(h@) is None,
        },
{
    proof {
        reveal_strlit("'shape'");
        assert("'shape'"@ =~= shape_key());
    }
    let key = "'shape'";
    let n = h.unicode_len();
    match find_text(h, key, 0) {
        None => None,
        Some(i) => {
            let start = i + 7;
            match find_text(h, key, start) {
                Some(j) => Some(h.substring_char(start, j)),
                None => Some(h.substring_char(start, n)),
            }
        },
    }
}

fn is_white_char(c: char) -> (r: bool)
    ensures
        r == is_white(c),
{
    let v = c as u32;
    (9 <= v && v <= 13) || v == 32 || v == 0x85 || v == 0xa0 || v == 0x1680 || (0x2000 <= v && v <= 0x200a)
        || v == 0x2028 || v == 0x2029 || v == 0x202f || v == 0x205f || v == 0x3000
}

/// `s` without leading and trailing white space.
fn trim_text(s: &str) -> (r: &str)
    ensures
        r@ == trim_ws(s@),
{
    let n = s.unicode_len();
    assert(s@.subrange(0, n as int) =~= s@);
    let mut a: usize = 0;
    while a < n && is_white_char(s.get_char(a))
        invariant
            a <= n,
            n == s@.len(),
            trim_start_ws(s@) == trim_start_ws(s@.subrange(a as int, n as int)),
        decreases n - a,
    {
        proof {
            assert(s@.subrange(a as int, n as int).drop_first() =~= s@.subrange(a + 1, n as int));
        }
        a += 1;
    }
    let ghost front = s@.subrange(a as int, n as int);
    assert(trim_start_ws(front) == front);
    let mut b: usize = n;
    while b > a && is_white_char(s.get_char(b - 1))
        invariant
            a <= b <= n,
            n == s@.len(),
            front == s@.subrange(a as int, n as int),
            trim_end_ws(front) == trim_end_ws(s@.subrange(a as int, b as int)),
        decreases b - a,
    {
        proof {
            assert(s@.subrange(a as int, b as int).drop_last() =~= s@.subrange(a as int, b - 1));
        }
        b -= 1;
    }
    s.substring_char(a, b)
}

/// The numbers of a shape text split at `,` (see `dims_of`).
fn shape_dims(s: &str) -> (d: Vec<usize>)
    ensures
        d@ == dims_of(split_char(s@, ',')),
{
    let mut out: Vec<usize> = Vec::new();
    let mut rest: &str = s;
    loop
        invariant
            out@ + dims_of(split_char(rest@, ',')) == dims_of(split_char(s@, ',')),
        decreases rest@.len(),
    {
        let n = rest.unicode_len();
        let i = find_first(rest, ',');
        proof {
            lemma_first_index_bound(rest@, ',');
        }
        let head = rest.substring_char(0, i);
        let v = parse_usize(trim_text(head));
        let ghost before = out@;
        let ghost pieces = split_char(rest@, ',');
        proof {
            if i >= n {
                assert(head@ =~= rest@);
            }
            assert(pieces[0] == head@);
            assert(pieces.drop_first() =~= if i >= n { Seq::<Seq<char>>::empty() } else {
                split_char(rest@.subrange(i + 1, n as int), ',')
            });
        }
        match v {
            Some(x) => {
                out.push(x);
            },
            None => {},
        }
        proof {
            assert(out@ + dims_of(pieces.drop_first()) =~= before + dims_of(pieces));
        }
        if i >= n {
            proof {
                assert(dims_of(pieces.drop_first()) =~= Seq::<usize>::empty());
                assert(out@ =~= out@ + dims_of(pieces.drop_first()));
            }
            return out;
        }
        rest = rest.substring_char(i + 1, n);
    }
}

fn dtype_from(descr: &str) -> (r: Option<NpyDtype>)
    ensures
        r == dtype_of(descr@),
{
    if text_eq(descr, "<f4") || text_eq(descr, "|f4") {
        Some(NpyDtype::F4)
    } else if text_eq(descr, "<f8") || text_eq(descr, "|f8") {
        Some(NpyDtype::F8)
    } else if text_eq(descr, "<i8") || text_eq(descr, "|i8") {
        Some(NpyDtype::I8)
    } else {
        None
    }
}

fn magic_ok(bytes: &[u8]) -> (r: bool)
    ensures
        r == has_npy_magic(bytes@),
{
    if bytes.len() < 6 {
        return false;
    }
    let r = bytes[0] == 0x93 && bytes[1] == 0x4e && bytes[2] == 0x55 && bytes[3] == 0x4d && bytes[4] == 0x50
        && bytes[5] == 0x59;
    proof {
        if r {
            assert(bytes@.subrange(0, 6) =~= npy_magic());
        } else {
            if bytes@.subrange(0, 6) == npy_magic() {
                assert(bytes@[0] == bytes@.subrange(0, 6)[0]);
                assert(bytes@[1] == bytes@.subrange(0, 6)[1]);
                assert(bytes@[2] == bytes@.subrange(0, 6)[2]);
                assert(bytes@[3] == bytes@.subrange(0, 6)[3]);
                assert(bytes@[4] == bytes@.subrange(0, 6)[4]);
                assert(bytes@[5] == bytes@.subrange(0, 6)[5]);
            }
        }
    }
    r
}

/// Start and length of the header text, if both fields lie inside the file.
fn header_span(bytes: &[u8]) -> (r: Option<(usize, usize)>)
    requires
        has_npy_magic(bytes@),
    ensures
        match r {
            Some((start, len)) => header_in_file(bytes@) && start == header_start(bytes@) && len
                == header_length(bytes@),
            None => !header_in_file(bytes@),
        },
{
    if bytes.len() < 7 {
        return None;
    }
    if bytes[6] == 1 {
        if bytes.len() < 10 {
            return None;
        }
        let len = bytes[8] as usize + 256 * bytes[9] as usize;
        if len > bytes.len() - 10 {
            return None;
        }
        Some((10, len))
    } else {
        if bytes.len() < 12 {
            return None;
        }
        let len = bytes[8] as u64 + 256 * bytes[9] as u64 + 65536 * bytes[10] as u64 + 16777216
            * bytes[11] as u64;
        if len > (bytes.len() - 12) as u64 {
            return None;
        }
        Some((12, len as usize))
    }
}

/// Whether reading the layout of `bytes` stays inside the file and the header
/// (see `npy_readable`).
fn layout_readable(bytes: &[u8]) -> (r: bool)
    ensures
        r == npy_readable(bytes@),
{
    if !magic_ok(bytes) {
        return true;
    }
    let (start, len) = match header_span(bytes) {
        Some(s) => s,
        None => {
            return false;
        },
    };
    let total = bytes.len();
    assert(start + len <= total);
    let header = lossy_text(slice_subrange(bytes, start, start + len));
    let h = header.as_str();
    if nth_piece(h, '\'', 3).is_none() {
        return true;
    }
    match shape_text(h) {
        None => true,
        Some(sp) => {
            let n = sp.unicode_len();
            let open = find_first(sp, '(');
            match find_last(sp, ')') {
                Some(close) => !(open < n) || close >= open + 1,
                None => true,
            }
        },
    }
}

/// Layout of the hull file `bytes` (see `hull_layout_spec`), for a file whose
/// header can be read (see `npy_readable`).
pub fn npy_hull_layout(bytes: &[u8]) -> (r: Result<HullLayout, NpyError>)
    requires
        npy_readable(bytes@),
    ensures
        outcome_of(r) == hull_layout_spec(bytes@),
{
    if !magic_ok(bytes) {
        return Err(NpyError::NotNumpy);
    }
    let (start, len) = match header_span(bytes) {
        Some(s) => s,
        None => {
            return Err(NpyError::NotNumpy);
        },
    };
    let total = bytes.len();
    assert(start + len <= total);
    let header = lossy_text(slice_subrange(bytes, start, start + len));
    let h = header.as_str();
    let descr = match nth_piece(h, '\'', 3) {
        Some(d) => d,
        None => {
            return Err(NpyError::DescrMissing);
        },
    };
    let sp = match shape_text(h) {
        Some(t) => t,
        None => {
            return Err(NpyError::ShapeKeyMissing);
        },
    };
    let n = sp.unicode_len();
    let open = find_first(sp, '(');
    if open >= n {
        return Err(NpyError::ShapeOpenMissing);
    }
    let close = match find_last(sp, ')') {
        Some(c) => c,
        None => {
            return Err(NpyError::ShapeCloseMissing);
        },
    };
    proof {
        lemma_last_index_bound(sp@, ')');
    }
    let dims = shape_dims(sp.substring_char(open + 1, close));
    let dtype = match dtype_from(descr) {
        Some(d) => d,
        None => {
            return Err(NpyError::UnsupportedDtype(String::from_str(descr)));
        },
    };
    let data_offset = start + len;
    if dims.len() == 2 && dims[0] == 313 && dims[1] == 2 {
        proof {
            assert(dims@ =~= seq![313usize, 2usize]);
        }
        Ok(HullLayout { dtype, transposed: false, data_offset })
    } else if dims.len() == 2 && dims[0] == 2 && dims[1] == 313 {
        proof {
            assert(dims@ =~= seq![2usize, 313usize]);
        }
        Ok(HullLayout { dtype, transposed: true, data_offset })
    } else {
        proof {
            if dims@ == seq![313usize, 2usize] {
                assert(dims@[0] == 313 && dims@[1] == 2);
            }
            if dims@ == seq![2usize, 313usize] {
                assert(dims@[0] == 2 && dims@[1] == 313);
            }
        }
        Err(NpyError::UnexpectedShape(dims))
    }
}

/// Layout of the hull file `bytes` when its header can be read; `None` when reading
/// it would run past the end of the file or of the header (see `npy_readable`).
pub fn read_hull_layout(bytes: &[u8]) -> (r: Option<Result<HullLayout, NpyError>>)
    ensures
        match r {
            Some(res) => npy_readable(bytes@) && outcome_of(res) == hull_layout_spec(bytes@),
            None => !npy_readable(bytes@),
        },
{
    if layout_readable(bytes) {
        Some(npy_hull_layout(bytes))
    } else {
        None
    }
}

/// Every supported descriptor is read as its element type, in little-endian (`<`) and
/// byte-order-free (`|`) form: 4- and 8-byte floats and 8-byte integers; any other
/// descriptor has no type, and a file is refused for its element type only when its
/// descriptor is none of these six.
pub proof fn lemma_supported_dtypes(b: Seq<u8>)
    ensures
        dtype_of("<f4"@) == Some(NpyDtype::F4),
        dtype_of("|f4"@) == Some(NpyDtype::F4),
        dtype_of("<f8"@) == Some(NpyDtype::F8),
        dtype_of("|f8"@) == Some(NpyDtype::F8),
        dtype_of("<i8"@) == Some(NpyDtype::I8),
        dtype_of("|i8"@) == Some(NpyDtype::I8),
        hull_layout_spec(b) matches LayoutOutcome::UnsupportedDtype(s) ==> {
            &&& s != "<f4"@
            &&& s != "|f4"@
            &&& s != "<f8"@
            &&& s != "|f8"@
            &&& s != "<i8"@
            &&& s != "|i8"@
        },
{
    reveal_strlit("<f4");
    reveal_strlit("|f4");
    reveal_strlit("<f8");
    reveal_strlit("|f8");
    reveal_strlit("<i8");
    reveal_strlit("|i8");
    // the six descriptors differ in their first or last character
    assert("|f8"@[2] != "<f4"@[2] && "|f8"@[2] != "|f4"@[2]);
    assert("<f8"@[2] != "<f4"@[2] && "<f8"@[2] != "|f4"@[2]);
    assert("<i8"@[1] != "<f4"@[1] && "<i8"@[1] != "|f4"@[1] && "<i8"@[1] != "<f8"@[1] && "<i8"@[1] != "|f8"@[1]);
    assert("|i8"@[1] != "<f4"@[1] && "|i8"@[1] != "|f4"@[1] && "|i8"@[1] != "<f8"@[1] && "|i8"@[1] != "|f8"@[1]);
    assert("|f4"@[0] != "<f4"@[0] && "|f8"@[0] != "<f8"@[0]);
}

} // verus!
