//! Names of photos and of the files that hold them: photo ids `<stem>#<index>`,
//! working files, saved files, path joining and the choice of scan files.

use vstd::prelude::*;
use vstd::string::*;
use vstd::relations::sorted_by;
use crate::text::{
    after_last, before_first, decimal, digit_char, digit_value, digits_value, first_index, is_digit, last_index,
    parse_usize, parse_usize_spec, push_decimal, second_field, text_after_last, text_before_first,
    text_eq, text_second_field, unsigned_digits,
};

verus! {

broadcast use vstd::seq_lib::group_to_multiset_ensures;

/// `dir` and `name` joined as a Unix path: an absolute `name` replaces `dir`, a
/// separator is put between them unless `dir` is empty or already ends with one.
pub open spec fn join_path_spec(dir: Seq<char>, name: Seq<char>) -> Seq<char> {
    if name.len() > 0 && name[0] == '/' {
        name
    } else if dir.len() == 0 || dir.last() == '/' {
        dir + name
    } else {
        dir + seq!['/'] + name
    }
}

/// Joins `dir` and `name` as a Unix path (see `join_path_spec`).
pub fn join_path(dir: &str, name: &str) -> (p: String)
    ensures
        p@ == join_path_spec(dir@, name@),
{
    proof {
        reveal_strlit("/");
    }
    let nlen = name.unicode_len();
    if nlen > 0 && name.get_char(0) == '/' {
        return String::from_str(name);
    }
    let dlen = dir.unicode_len();
    let mut p = String::from_str(dir);
    if dlen > 0 && dir.get_char(dlen - 1) != '/' {
        p.append("/");
    }
    p.append(name);
    proof {
        if dlen > 0 && dir@.last() != '/' {
            assert(p@ =~= dir@ + seq!['/'] + name@);
        }
    }
    p
}

/// Id of photo `index` of the sheet whose file stem is `stem`.
pub open spec fn photo_id_spec(stem: Seq<char>, index: nat) -> Seq<char> {
    stem + seq!['#'] + decimal(index)
}

/// Id of photo `index` of the sheet whose file stem is `stem`: `<stem>#<index>`.
pub fn photo_id(stem: &str, index: usize) -> (id: String)
    ensures
        id@ == photo_id_spec(stem@, index as nat),
{
    proof {
        reveal_strlit("#");
    }
    let mut id = String::from_str(stem);
    id.append("#");
    push_decimal(&mut id, index);
    id
}

/// `<a><sep><b><ext>` as one string.
fn concat4(a: &str, sep: &str, b: &str, ext: &str) -> (s: String)
    ensures
        s@ == a@ + sep@ + b@ + ext@,
{
    let mut s = String::from_str(a);
    s.append(sep);
    s.append(b);
    s.append(ext);
    s
}

/// Working file of an extracted photo: `<stem>_<index>.png`.
pub open spec fn extracted_name_spec(stem: Seq<char>, index: Seq<char>) -> Seq<char> {
    stem + "_"@ + index + ".png"@
}

/// Working file of an extracted photo: `<stem>_<index>.png`.
pub fn extracted_name(stem: &str, index: &str) -> (name: String)
    ensures
        name@ == extracted_name_spec(stem@, index@),
{
    concat4(stem, "_", index, ".png")
}

/// Working file of an enhanced photo: `<stem>_enh.png`, where `stem` is the stem of
/// the photo's working file.
pub fn enhanced_name(stem: &str) -> (name: String)
    ensures
        name@ == stem@ + "_enh.png"@,
{
    let mut name = String::from_str(stem);
    name.append("_enh.png");
    name
}

/// Working file that a manual rotation of photo `id` rewrites: the part of the id
/// before the first `#`, then `_`, the part after it up to the next `#` (`0` when the
/// id has no `#`), and `.png`.
pub open spec fn rotation_file_spec(id: Seq<char>) -> Seq<char> {
    let idx = match second_field(id, '#') {
        Some(f) => f,
        None => "0"@,
    };
    extracted_name_spec(before_first(id, '#'), idx)
}

/// Working file that a manual rotation of photo `id` rewrites (see `rotation_file_spec`).
pub fn rotation_file(id: &str) -> (name: String)
    ensures
        name@ == rotation_file_spec(id@),
{
    let stem = text_before_first(id, '#');
    match text_second_field(id, '#') {
        Some(idx) => extracted_name(stem, idx),
        None => extracted_name(stem, "0"),
    }
}

/// Extension a photo is saved with: `png` when that format is asked for, else `jpg`.
pub open spec fn save_ext_spec(format: Seq<char>) -> Seq<char> {
    if format == "png"@ { "png"@ } else { "jpg"@ }
}

/// Name of the saved file of photo `id`: the id's part before the first `#`, `_p`,
/// the part after the last `#`, `.`, and the extension for `format`.
pub open spec fn save_name_spec(id: Seq<char>, format: Seq<char>) -> Seq<char> {
    before_first(id, '#') + "_p"@ + after_last(id, '#') + "."@ + save_ext_spec(format)
}

/// Name of the saved file of photo `id` (see `save_name_spec`), e.g. `20260829095358_001_p0.jpg`.
pub fn save_name(id: &str, format: &str) -> (name: String)
    ensures
        name@ == save_name_spec(id@, format@),
{
    let stem = text_before_first(id, '#');
    let idx = text_after_last(id, '#');
    let ext = if text_eq(format, "png") { "png" } else { "jpg" };
    let mut name = concat4(stem, "_p", idx, ".");
    name.append(ext);
    name
}

/// The index a photo id ends with: the number after its last `#`, or 0 when that is
/// not a number.
pub open spec fn id_index_spec(id: Seq<char>) -> usize {
    match parse_usize_spec(after_last(id, '#')) {
        Some(v) => v,
        None => 0,
    }
}

/// The index a photo id ends with (see `id_index_spec`).
pub fn id_index(id: &str) -> (i: usize)
    ensures
        i == id_index_spec(id@),
{
    match parse_usize(text_after_last(id, '#')) {
        Some(v) => v,
        None => 0,
    }
}

proof fn lemma_decimal_digits(n: nat)
    ensures
        decimal(n).len() > 0,
        forall|i: int| 0 <= i < decimal(n).len() ==> #[trigger] is_digit(decimal(n)[i]),
        forall|i: int| 0 <= i < decimal(n).len() ==> decimal(n)[i] != '#' && decimal(n)[i] != '+',
        digits_value(decimal(n)) == n,
    decreases n,
{
    lemma_digit_char_value((n % 10) as int);
    let d = decimal(n);
    if n >= 10 {
        lemma_decimal_digits(n / 10);
        assert(d.drop_last() =~= decimal(n / 10));
        assert(d.last() == digit_char((n % 10) as int));
        assert(digits_value(d) == digits_value(decimal(n / 10)) * 10 + digit_value(d.last()));
        assert forall|i: int| 0 <= i < d.len() implies #[trigger] is_digit(d[i]) by {
            if i < d.len() - 1 {
                assert(d[i] == decimal(n / 10)[i]);
            }
        }
    } else {
        assert(d.drop_last() =~= Seq::<char>::empty());
        assert(digits_value(d) == digits_value(d.drop_last()) * 10 + digit_value(d.last()));
    }
}

proof fn lemma_digit_char_value(k: int)
    requires
        0 <= k < 10,
    ensures
        digit_value(digit_char(k)) == k,
        is_digit(digit_char(k)),
{
    assert(('0' as int) == 48);
    assert(('9' as int) == 57);
    if k == 0 { assert(('0' as int) == 48); }
    else if k == 1 { assert(('1' as int) == 49); }
    else if k == 2 { assert(('2' as int) == 50); }
    else if k == 3 { assert(('3' as int) == 51); }
    else if k == 4 { assert(('4' as int) == 52); }
    else if k == 5 { assert(('5' as int) == 53); }
    else if k == 6 { assert(('6' as int) == 54); }
    else if k == 7 { assert(('7' as int) == 55); }
    else if k == 8 { assert(('8' as int) == 56); }
    else { assert(('9' as int) == 57); }
}

proof fn lemma_no_char_first(s: Seq<char>, t: Seq<char>, c: char)
    requires
        forall|i: int| 0 <= i < s.len() ==> s[i] != c,
    ensures
        first_index(s + seq![c] + t, c) == s.len(),
{
    let u = s + seq![c] + t;
    assert forall|j: int| 0 <= j < s.len() implies u[j] != c by {
        assert(u[j] == s[j]);
    }
    assert(u[s.len() as int] == c);
    lemma_first_index_at(u, c, s.len() as int);
}

proof fn lemma_first_index_at(s: Seq<char>, c: char, i: int)
    requires
        0 <= i <= s.len(),
        forall|j: int| 0 <= j < i ==> s[j] != c,
        i == s.len() || s[i] == c,
    ensures
        first_index(s, c) == i,
    decreases s.len(),
{
    if s.len() > 0 && i > 0 {
        assert forall|j: int| 0 <= j < i - 1 implies s.drop_first()[j] != c by {
            assert(s.drop_first()[j] == s[j + 1]);
        }
        lemma_first_index_at(s.drop_first(), c, i - 1);
    }
}

proof fn lemma_last_index_at(s: Seq<char>, c: char, i: int)
    requires
        -1 <= i < s.len(),
        forall|j: int| i < j < s.len() ==> s[j] != c,
        i == -1 || s[i] == c,
    ensures
        last_index(s, c) == i,
    decreases s.len(),
{
    if s.len() > 0 && i < s.len() - 1 {
        assert forall|j: int| i < j < s.len() - 1 implies s.drop_last()[j] != c by {
            assert(s.drop_last()[j] == s[j]);
        }
        lemma_last_index_at(s.drop_last(), c, i);
    }
}

/// A photo id gives back the sheet stem and the index it was made from, as long as
/// the stem holds no `#`: the part before the first `#` is the stem, the number
/// after the last `#` is the index, and the photo is saved as `<stem>_p<index>.<ext>`.
pub proof fn lemma_photo_id_round_trip(stem: Seq<char>, index: nat, format: Seq<char>)
    requires
        forall|i: int| 0 <= i < stem.len() ==> stem[i] != '#',
        index <= usize::MAX,
    ensures
        before_first(photo_id_spec(stem, index), '#') == stem,
        after_last(photo_id_spec(stem, index), '#') == decimal(index),
        id_index_spec(photo_id_spec(stem, index)) == index,
        save_name_spec(photo_id_spec(stem, index), format) == stem + "_p"@ + decimal(index) + "."@
            + save_ext_spec(format),
{
    let id = photo_id_spec(stem, index);
    let d = decimal(index);
    lemma_decimal_digits(index);
    lemma_no_char_first(stem, d, '#');
    assert(id.subrange(0, stem.len() as int) =~= stem);
    assert forall|j: int| stem.len() < j < id.len() implies id[j] != '#' by {
        assert(id[j] == d[j - stem.len() - 1]);
    }
    lemma_last_index_at(id, '#', stem.len() as int);
    assert(id.subrange(stem.len() as int + 1, id.len() as int) =~= d);
    assert(unsigned_digits(d) == d);
}


/// Code point of `c` with ASCII capitals folded to lower case.
pub open spec fn folded_code(c: char) -> int {
    if 65 <= (c as int) <= 90 { (c as int) + 32 } else { c as int }
}

/// `name` ends with the lower-case suffix `ext`, ASCII capitals folded.
pub open spec fn ends_with_folded(name: Seq<char>, ext: Seq<char>) -> bool {
    &&& name.len() >= ext.len()
    &&& forall|i: int| 0 <= i < ext.len() ==> folded_code(#[trigger] name[name.len() - ext.len() + i]) == ext[i] as int
}

/// A file name that the scan list shows: it ends, ignoring case, with one of the
/// image extensions jpg, jpeg, png, tif, tiff, bmp.
pub open spec fn is_image_name(name: Seq<char>) -> bool {
    ||| ends_with_folded(name, "jpg"@)
    ||| ends_with_folded(name, "jpeg"@)
    ||| ends_with_folded(name, "png"@)
    ||| ends_with_folded(name, "tif"@)
    ||| ends_with_folded(name, "tiff"@)
    ||| ends_with_folded(name, "bmp"@)
}

fn ends_with_folded_exec(name: &str, ext: &str) -> (r: bool)
    ensures
        r == ends_with_folded(name@, ext@),
{
    let n = name.unicode_len();
    let k = ext.unicode_len();
    if n < k {
        return false;
    }
    let mut i: usize = 0;
    while i < k
        invariant
            i <= k,
            k <= n,
            n == name@.len(),
            k == ext@.len(),
            forall|j: int| 0 <= j < i ==> folded_code(#[trigger] name@[n - k + j]) == ext@[j] as int,
        decreases k - i,
    {
        let c = name.get_char(n - k + i) as u32;
        let f = if 65 <= c && c <= 90 { c + 32 } else { c };
        if f != ext.get_char(i) as u32 {
            return false;
        }
        i += 1;
    }
    true
}

/// Whether the scan list shows a file of this name (see `is_image_name`).
pub fn has_image_ext(name: &str) -> (r: bool)
    ensures
        r == is_image_name(name@),
{
    ends_with_folded_exec(name, "jpg") || ends_with_folded_exec(name, "jpeg")
        || ends_with_folded_exec(name, "png") || ends_with_folded_exec(name, "tif")
        || ends_with_folded_exec(name, "tiff") || ends_with_folded_exec(name, "bmp")
}

/// Lexicographic order of texts by code point, the order of `String`.
pub open spec fn lex_le(a: Seq<char>, b: Seq<char>) -> bool
    decreases a.len(),
{
    if a.len() == 0 {
        true
    } else if b.len() == 0 {
        false
    } else if a[0] != b[0] {
        a[0] < b[0]
    } else {
        lex_le(a.drop_first(), b.drop_first())
    }
}

/// `lex_le` as a relation value.
pub open spec fn text_order() -> spec_fn(Seq<char>, Seq<char>) -> bool {
    |a: Seq<char>, b: Seq<char>| lex_le(a, b)
}

proof fn lemma_lex_total(a: Seq<char>, b: Seq<char>)
    ensures
        lex_le(a, b) || lex_le(b, a),
    decreases a.len(),
{
    if a.len() > 0 && b.len() > 0 && a[0] == b[0] {
        lemma_lex_total(a.drop_first(), b.drop_first());
    }
}

proof fn lemma_lex_transitive(a: Seq<char>, b: Seq<char>, c: Seq<char>)
    requires
        lex_le(a, b),
        lex_le(b, c),
    ensures
        lex_le(a, c),
    decreases a.len(),
{
    if a.len() > 0 && b.len() > 0 && c.len() > 0 && a[0] == b[0] && b[0] == c[0] {
        lemma_lex_transitive(a.drop_first(), b.drop_first(), c.drop_first());
    }
}

/// Whether `a` comes no later than `b` in text order.
pub fn text_le(a: &str, b: &str) -> (r: bool)
    ensures
        r == lex_le(a@, b@),
{
    let n = a.unicode_len();
    let m = b.unicode_len();
    let mut i: usize = 0;
    proof {
        assert(a@.skip(0) =~= a@);
        assert(b@.skip(0) =~= b@);
    }
    while i < n && i < m
        invariant
            i <= n,
            i <= m,
            n == a@.len(),
            m == b@.len(),
            lex_le(a@, b@) == lex_le(a@.skip(i as int), b@.skip(i as int)),
        decreases n - i,
    {
        let x = a.get_char(i);
        let y = b.get_char(i);
        if x != y {
            return x < y;
        }
        proof {
            assert(a@.skip(i as int).drop_first() =~= a@.skip(i + 1));
            assert(b@.skip(i as int).drop_first() =~= b@.skip(i + 1));
        }
        i += 1;
    }
    i == n
}

/// The names among the first `n` that the scan list shows, in their original order.
pub open spec fn image_names_prefix(names: Seq<Seq<char>>, n: int) -> Seq<Seq<char>>
    decreases n,
{
    if n <= 0 {
        Seq::empty()
    } else {
        let prev = image_names_prefix(names, n - 1);
        if is_image_name(names[n - 1]) { prev.push(names[n - 1]) } else { prev }
    }
}

/// The names of a folder listing that are scans (see `is_image_name`), in text order.
pub fn image_names(names: &Vec<String>) -> (out: Vec<String>)
    ensures
        sorted_by(out@.map_values(|s: String| s@), text_order()),
        out@.map_values(|s: String| s@).to_multiset() == image_names_prefix(
            names@.map_values(|s: String| s@),
            names@.len() as int,
        ).to_multiset(),
{
    let ghost all = names@.map_values(|s: String| s@);
    let mut out: Vec<String> = Vec::new();
    let mut i: usize = 0;
    while i < names.len()
        invariant
            i <= names@.len(),
            all == names@.map_values(|s: String| s@),
            sorted_by(out@.map_values(|s: String| s@), text_order()),
            out@.map_values(|s: String| s@).to_multiset() == image_names_prefix(all, i as int).to_multiset(),
        decreases names@.len() - i,
    {
        let name = &names[i];
        assert(all[i as int] == name@);
        if has_image_ext(name.as_str()) {
            let ghost before = out@.map_values(|s: String| s@);
            let mut j: usize = 0;
            while j < out.len() && text_le(out[j].as_str(), name.as_str())
                invariant
                    j <= out@.len(),
                    before == out@.map_values(|s: String| s@),
                    forall|k: int| 0 <= k < j ==> lex_le(#[trigger] before[k], name@),
                decreases out@.len() - j,
            {
                j += 1;
            }
            out.insert(j, name.clone());
            proof {
                let after = out@.map_values(|s: String| s@);
                assert(after =~= before.insert(j as int, name@));
                assert forall|a: int, b: int| 0 <= a < b < after.len() implies #[trigger] (text_order())(
                    after[a],
                    after[b],
                ) by {
                    if b < j {
                        assert((text_order())(before[a], before[b]));
                    } else if b == j {
                    } else if a < j {
                        assert((text_order())(before[a], before[b - 1]));
                        assert(lex_le(before[a], name@));
                        if j < before.len() {
                            lemma_lex_total(before[j as int], name@);
                            if b - 1 > j {
                                assert((text_order())(before[j as int], before[b - 1]));
                            }
                        }
                        assert(lex_le(before[a], before[b - 1]));
                    } else if a == j {
                        lemma_lex_total(before[j as int], name@);
                        if b - 1 > j {
                            assert((text_order())(before[j as int], before[b - 1]));
                            lemma_lex_transitive(name@, before[j as int], before[b - 1]);
                        }
                    } else {
                        assert((text_order())(before[a - 1], before[b - 1]));
                    }
                }
            }
        }
        i += 1;
    }
    proof {
        assert(names@.len() as int == all.len());
    }
    out
}


/// The file stem of a path, as `std::path::Path::file_stem` reads it.
pub uninterp spec fn file_stem_of(path: Seq<char>) -> Option<Seq<char>>;

/// `std::path::Path::file_stem`, as text: the final component of the path without
/// its last extension. The claim is only that the result is the named function of
/// the path; the component and extension rules of `std::path` are not restated.
#[verifier::external_body]
fn path_file_stem(path: &str) -> (r: Option<String>)
    ensures
        match r {
            Some(stem) => file_stem_of(path@) == Some(stem@),
            None => file_stem_of(path@) is None,
        },
{
    std::path::Path::new(path).file_stem().and_then(|stem| stem.to_str()).map(|stem| stem.to_string())
}

/// Stem of a sheet or photo file, `scan` when the path has none.
pub open spec fn stem_of_spec(path: Seq<char>) -> Seq<char> {
    match file_stem_of(path) {
        Some(stem) => stem,
        None => "scan"@,
    }
}

/// Stem of a sheet or photo file (see `stem_of_spec`).
pub fn stem_of(path: &str) -> (stem: String)
    ensures
        stem@ == stem_of_spec(path@),
{
    match path_file_stem(path) {
        Some(stem) => stem,
        None => String::from_str("scan"),
    }
}

/// Where the model file `name` lies in the models directory `models_dir`.
pub fn model_path(models_dir: &str, name: &str) -> (p: String)
    ensures
        p@ == join_path_spec(models_dir@, name@),
{
    join_path(models_dir, name)
}

/// Where the annotated overview of the sheet at `scan_path` is written in `out_dir`
/// (`<stem>_debug.png`), or `None` when no photo was found on it and nothing is written.
pub fn save_debug(out_dir: &str, scan_path: &str, quad_count: usize) -> (r: Option<String>)
    ensures
        match r {
            Some(p) => quad_count > 0 && p@ == join_path_spec(out_dir@, stem_of_spec(scan_path@) + "_debug.png"@),
            None => quad_count == 0,
        },
{
    if quad_count == 0 {
        return None;
    }
    let mut name = stem_of(scan_path);
    name.append("_debug.png");
    Some(join_path(out_dir, name.as_str()))
}

} // verus!
