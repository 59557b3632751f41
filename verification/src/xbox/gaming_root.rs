//! The `.GamingRoot` file at the root of a drive, which lists the folders the
//! Xbox app installs games into.
//!
//! Layout, all integers little-endian: the magic `0x58424752` (u32), the number
//! of folders (u32, below 255), then each folder as UTF-16 code units (u16)
//! ended by a NUL unit. A folder is relative to the drive root; one with a
//! drive prefix, a root or a `..` component makes the file invalid.
use vstd::prelude::*;
use crate::error::{Error, ErrorKind};
use crate::paths::{escapes_base, escapes_base_chars, join, join_path, starts_with};
use crate::text::{char_from_u32, string_from_chars};

verus! {

pub const GAMING_ROOT_MAGIC: u32 = 0x5842_4752;

pub open spec fn le_u16(d: Seq<u8>, i: int) -> int {
    d[i] + 256 * d[i + 1]
}

pub open spec fn le_u32(d: Seq<u8>, i: int) -> int {
    d[i] + 256 * d[i + 1] + 65536 * d[i + 2] + 16777216 * d[i + 3]
}

/// The code units of the NUL-ended record at `pos` and the position after
/// its NUL unit, or `None` when the data ends first.
pub open spec fn record_at(d: Seq<u8>, pos: int) -> Option<(Seq<u16>, int)>
    decreases d.len() - pos,
{
    if pos < 0 || pos + 2 > d.len() {
        None
    } else if le_u16(d, pos) == 0 {
        Some((seq![], pos + 2))
    } else {
        match record_at(d, pos + 2) {
            Some((rest, next)) => Some((seq![le_u16(d, pos) as u16] + rest, next)),
            None => None,
        }
    }
}

pub open spec fn is_surrogate(u: u16) -> bool {
    0xD800 <= u <= 0xDFFF
}

pub open spec fn is_high_surrogate(u: u16) -> bool {
    0xD800 <= u <= 0xDBFF
}

pub open spec fn is_low_surrogate(u: u16) -> bool {
    0xDC00 <= u <= 0xDFFF
}

pub open spec fn pair_code_point(hi: u16, lo: u16) -> int {
    0x10000 + (hi - 0xD800) * 0x400 + (lo - 0xDC00)
}

/// UTF-16 decoding: `None` when a surrogate is unpaired.
pub open spec fn decode_utf16(u: Seq<u16>) -> Option<Seq<char>>
    decreases u.len(),
{
    if u.len() == 0 {
        Some(seq![])
    } else if !is_surrogate(u[0]) {
        match decode_utf16(u.skip(1)) {
            Some(r) => Some(seq![(u[0] as u32) as char] + r),
            None => None,
        }
    } else if is_high_surrogate(u[0]) && u.len() >= 2 && is_low_surrogate(u[1]) {
        match decode_utf16(u.skip(2)) {
            Some(r) => Some(seq![(pair_code_point(u[0], u[1]) as u32) as char] + r),
            None => None,
        }
    } else {
        None
    }
}

pub open spec fn string_views(v: Seq<String>) -> Seq<Seq<char>> {
    v.map_values(|s: String| s@)
}

pub open spec fn prepend(xs: Seq<Seq<char>>, r: Option<Seq<Seq<char>>>) -> Option<Seq<Seq<char>>> {
    match r {
        Some(rest) => Some(xs + rest),
        None => None,
    }
}

/// The `n` folder records starting at `pos`, each joined to `root`.
pub open spec fn folders_from(d: Seq<u8>, pos: int, n: nat, root: Seq<char>) -> Option<
    Seq<Seq<char>>,
>
    decreases n,
{
    if n == 0 {
        Some(seq![])
    } else {
        match record_at(d, pos) {
            None => None,
            Some((units, next)) => match decode_utf16(units) {
                None => None,
                Some(folder) => if escapes_base(folder) {
                    None
                } else {
                    prepend(seq![join_path(root, folder)], folders_from(d, next, (n - 1) as nat, root))
                },
            },
        }
    }
}

/// The folders that a `.GamingRoot` file with contents `d` at the root
/// directory `root` declares, or `None` when the file is invalid.
pub open spec fn gaming_root_folders(root: Seq<char>, d: Seq<u8>) -> Option<Seq<Seq<char>>> {
    if d.len() < 8 {
        None
    } else if le_u32(d, 0) != GAMING_ROOT_MAGIC {
        None
    } else if le_u32(d, 4) >= 255 {
        None
    } else {
        folders_from(d, 8, le_u32(d, 4) as nat, root)
    }
}

fn read_le_u32(d: &[u8], i: usize) -> (r: u32)
    requires
        i + 4 <= d@.len(),
    ensures
        r == le_u32(d@, i as int),
{
    d[i] as u32 + (d[i + 1] as u32) * 256 + (d[i + 2] as u32) * 65536 + (d[i + 3] as u32)
        * 16777216
}

/// Reads the record at `start`: its code units and the position after it.
fn read_record(d: &[u8], start: usize) -> (r: Option<(Vec<u16>, usize)>)
    requires
        start <= d@.len(),
    ensures
        match record_at(d@, start as int) {
            Some((units, next)) => r matches Some((v, n)) && v@ == units && n == next,
            None => r is None,
        },
        r matches Some((v, n)) ==> start + 2 <= n <= d@.len(),
{
    let mut units: Vec<u16> = Vec::new();
    let mut pos = start;
    while pos <= d.len()
        invariant
            start <= pos <= d@.len(),
            record_at(d@, start as int) == match record_at(d@, pos as int) {
                Some((rest, next)) => Some((units@ + rest, next)),
                None => None::<(Seq<u16>, int)>,
            },
        decreases d@.len() - pos,
    {
        if d.len() - pos < 2 {
            return None;
        }
        let unit = d[pos] as u16 + (d[pos + 1] as u16) * 256;
        assert(unit == le_u16(d@, pos as int));
        let ghost old_units = units@;
        pos = pos + 2;
        if unit == 0 {
            assert(units@ + Seq::<u16>::empty() =~= units@);
            return Some((units, pos));
        }
        units.push(unit);
        proof {
            match record_at(d@, pos as int) {
                Some((rest, next)) => {
                    assert(old_units + (seq![unit] + rest) =~= units@ + rest);
                },
                None => {},
            }
        }
    }
    None
}

/// Decodes UTF-16 code units.
fn decode_units(u: &Vec<u16>) -> (r: Option<Vec<char>>)
    ensures
        match decode_utf16(u@) {
            Some(cs) => r matches Some(v) && v@ == cs,
            None => r is None,
        },
{
    let mut out: Vec<char> = Vec::new();
    let mut i: usize = 0;
    assert(u@.skip(0) =~= u@);
    proof {
        match decode_utf16(u@) {
            Some(cs) => { assert(out@ + cs =~= cs); },
            None => {},
        }
    }
    while i < u.len()
        invariant
            i <= u@.len(),
            decode_utf16(u@) == match decode_utf16(u@.skip(i as int)) {
                Some(rest) => Some(out@ + rest),
                None => None::<Seq<char>>,
            },
        decreases u@.len() - i,
    {
        let ghost s = u@.skip(i as int);
        let x = u[i];
        if x < 0xD800 || x > 0xDFFF {
            let c = match char_from_u32(x as u32) {
                Some(c) => c,
                None => { return None; },
            };
            proof { crate::text::char_of_code_point(c, x as u32); }
            assert(s.skip(1) =~= u@.skip(i + 1));
            let ghost old_out = out@;
            out.push(c);
            proof {
                match decode_utf16(u@.skip(i + 1)) {
                    Some(rest) => {
                        assert(old_out + (seq![c] + rest) =~= out@ + rest);
                    },
                    None => {},
                }
            }
            i = i + 1;
        } else if x <= 0xDBFF && u.len() - i >= 2 && 0xDC00 <= u[i + 1] && u[i + 1] <= 0xDFFF {
            let y = u[i + 1];
            let v: u32 = 0x10000 + ((x - 0xD800) as u32) * 0x400 + ((y - 0xDC00) as u32);
            assert(v == pair_code_point(x, y));
            let c = match char_from_u32(v) {
                Some(c) => c,
                None => { return None; },
            };
            proof { crate::text::char_of_code_point(c, v); }
            assert(s.skip(2) =~= u@.skip(i + 2));
            let ghost old_out = out@;
            out.push(c);
            proof {
                match decode_utf16(u@.skip(i + 2)) {
                    Some(rest) => {
                        assert(old_out + (seq![c] + rest) =~= out@ + rest);
                    },
                    None => {},
                }
            }
            i = i + 2;
        } else {
            return None;
        }
    }
    assert(u@.skip(i as int) =~= Seq::<u16>::empty());
    assert(out@ + Seq::<char>::empty() =~= out@);
    Some(out)
}

fn invalid(path: &String, what: &str) -> (e: Error)
    ensures
        e.kind == ErrorKind::InvalidManifest,
{
    let mut m = String::from_str(what);
    m.append(path.as_str());
    Error::new(ErrorKind::InvalidManifest, m)
}

/// The path of the `.GamingRoot` file of a root directory.
pub fn gaming_root_path(root: &str) -> (p: String)
    ensures
        p@ == join_path(root@, ".GamingRoot"@),
{
    join(root, ".GamingRoot")
}

/// Parses the contents of the `.GamingRoot` file found in the root directory
/// `root`; each folder it declares comes back joined to `root`.
pub fn parse_gaming_root(root: &str, data: &[u8]) -> (r: Result<Vec<String>, Error>)
    ensures
        match gaming_root_folders(root@, data@) {
            Some(folders) => r matches Ok(v) && string_views(v@) == folders,
            None => r matches Err(e) && e.kind == ErrorKind::InvalidManifest,
        },
{
    let path = gaming_root_path(root);
    if data.len() < 8 {
        return Err(invalid(&path, "Unable to read .GamingRoot at "));
    }
    let magic = read_le_u32(data, 0);
    if magic != GAMING_ROOT_MAGIC {
        return Err(invalid(&path, "Invalid .GamingRoot magic at "));
    }
    let count = read_le_u32(data, 4);
    if count >= 255 {
        return Err(invalid(&path, "Too many folders in .GamingRoot at "));
    }
    let mut folders: Vec<String> = Vec::new();
    let mut pos: usize = 8;
    let mut k: u32 = 0;
    while k < count
        invariant
            8 <= pos <= data@.len(),
            k <= count,
            count == le_u32(data@, 4),
            gaming_root_folders(root@, data@) == prepend(
                string_views(folders@),
                folders_from(data@, pos as int, (count - k) as nat, root@),
            ),
        decreases count - k,
    {
        let (units, next) = match read_record(data, pos) {
            Some(rec) => rec,
            None => { return Err(invalid(&path, "Unable to read folder from .GamingRoot at ")); },
        };
        let chars = match decode_units(&units) {
            Some(cs) => cs,
            None => { return Err(invalid(&path, "Invalid UTF-16 folder in .GamingRoot at ")); },
        };
        if escapes_base_chars(&chars) {
            return Err(invalid(&path, "Invalid folder in .GamingRoot at "));
        }
        let rel = string_from_chars(&chars);
        let folder = join(root, rel.as_str());
        let ghost before = string_views(folders@);
        folders.push(folder);
        proof {
            assert(string_views(folders@) =~= before + seq![folder@]);
            match folders_from(data@, next as int, (count - k - 1) as nat, root@) {
                Some(rest) => {
                    assert(before + (seq![folder@] + rest) =~= string_views(folders@) + rest);
                },
                None => {},
            }
        }
        pos = next;
        k = k + 1;
    }
    assert(string_views(folders@) + Seq::<Seq<char>>::empty() =~= string_views(folders@));
    Ok(folders)
}

} // verus!

verus! {

/// The little-endian bytes of a 32-bit value.
pub open spec fn u32_le_bytes(v: u32) -> Seq<u8> {
    seq![(v & 0xff) as u8, ((v >> 8) & 0xff) as u8, ((v >> 16) & 0xff) as u8, ((v >> 24) & 0xff) as u8]
}

/// The little-endian bytes of a sequence of code units.
pub open spec fn units_le_bytes(u: Seq<u16>) -> Seq<u8>
    decreases u.len(),
{
    if u.len() == 0 {
        seq![]
    } else {
        seq![(u[0] % 256) as u8, (u[0] / 256) as u8] + units_le_bytes(u.skip(1))
    }
}

/// The UTF-16 code units of one character.
pub open spec fn char_utf16(c: char) -> Seq<u16> {
    let v = c as u32;
    if v < 0x10000 {
        seq![v as u16]
    } else {
        seq![(0xD800 + (v - 0x10000) / 0x400) as u16, (0xDC00 + (v - 0x10000) % 0x400) as u16]
    }
}

/// UTF-16 encoding.
pub open spec fn encode_utf16(cs: Seq<char>) -> Seq<u16>
    decreases cs.len(),
{
    if cs.len() == 0 {
        seq![]
    } else {
        char_utf16(cs[0]) + encode_utf16(cs.skip(1))
    }
}

/// One folder record: its UTF-16 code units, then a NUL unit.
pub open spec fn folder_record(f: Seq<char>) -> Seq<u8> {
    units_le_bytes(encode_utf16(f)) + seq![0u8, 0u8]
}

pub open spec fn folder_records(fs: Seq<Seq<char>>) -> Seq<u8>
    decreases fs.len(),
{
    if fs.len() == 0 {
        seq![]
    } else {
        folder_record(fs[0]) + folder_records(fs.skip(1))
    }
}

/// The `.GamingRoot` file that lists `fs`.
pub open spec fn encode_gaming_root(fs: Seq<Seq<char>>) -> Seq<u8> {
    u32_le_bytes(GAMING_ROOT_MAGIC) + u32_le_bytes(fs.len() as u32) + folder_records(fs)
}

/// A folder that a `.GamingRoot` file can list: relative, and free of NUL.
pub open spec fn listable_folder(f: Seq<char>) -> bool {
    &&& !escapes_base(f)
    &&& forall|i: int| 0 <= i < f.len() ==> f[i] != '\0'
}

proof fn lemma_u32_le(v: u32)
    ensures
        le_u32(u32_le_bytes(v), 0) == v,
{
    let b = u32_le_bytes(v);
    let b0 = (v & 0xff) as u8;
    let b1 = ((v >> 8) & 0xff) as u8;
    let b2 = ((v >> 16) & 0xff) as u8;
    let b3 = ((v >> 24) & 0xff) as u8;
    assert(b0 as u32 + (b1 as u32) * 256 + (b2 as u32) * 65536 + (b3 as u32) * 16777216 == v)
        by (bit_vector)
        requires
            b0 == (v & 0xff) as u8,
            b1 == ((v >> 8) & 0xff) as u8,
            b2 == ((v >> 16) & 0xff) as u8,
            b3 == ((v >> 24) & 0xff) as u8,
    ;
    assert(b[0] == b0 && b[1] == b1 && b[2] == b2 && b[3] == b3);
}

proof fn lemma_char_utf16_decodes(c: char, rest: Seq<u16>)
    ensures
        decode_utf16(char_utf16(c) + rest) == match decode_utf16(rest) {
            Some(r) => Some(seq![c] + r),
            None => None::<Seq<char>>,
        },
        forall|i: int| 0 <= i < char_utf16(c).len() ==> (c != '\0' ==> char_utf16(c)[i] != 0),
{
    let v = c as u32;
    let u = char_utf16(c) + rest;
    if v < 0x10000 {
        crate::text::char_of_code_point(c, v);
        assert(u.skip(1) =~= rest);
        assert((((v as u16) as u32) as char) == c);
    } else {
        let hi = (0xD800 + (v - 0x10000) / 0x400) as u16;
        let lo = (0xDC00 + (v - 0x10000) % 0x400) as u16;
        assert(v <= 0x10FFFF);
        assert(pair_code_point(hi, lo) == v);
        crate::text::char_of_code_point(c, v);
        assert(u.skip(2) =~= rest);
    }
}

proof fn lemma_decode_encode_utf16(cs: Seq<char>)
    ensures
        decode_utf16(encode_utf16(cs)) == Some(cs),
    decreases cs.len(),
{
    if cs.len() > 0 {
        lemma_decode_encode_utf16(cs.skip(1));
        lemma_char_utf16_decodes(cs[0], encode_utf16(cs.skip(1)));
        assert(seq![cs[0]] + cs.skip(1) =~= cs);
    }
}

proof fn lemma_encode_utf16_nonzero(cs: Seq<char>)
    requires
        forall|i: int| 0 <= i < cs.len() ==> cs[i] != '\0',
    ensures
        forall|i: int| 0 <= i < encode_utf16(cs).len() ==> encode_utf16(cs)[i] != 0,
    decreases cs.len(),
{
    if cs.len() > 0 {
        lemma_encode_utf16_nonzero(cs.skip(1));
        lemma_char_utf16_decodes(cs[0], seq![]);
        let a = char_utf16(cs[0]);
        let b = encode_utf16(cs.skip(1));
        assert forall|i: int| 0 <= i < (a + b).len() implies (a + b)[i] != 0 by {
            if i < a.len() {
            } else {
                assert((a + b)[i] == b[i - a.len()]);
            }
        }
    }
}

proof fn lemma_record_at(d: Seq<u8>, pos: int, u: Seq<u16>)
    requires
        0 <= pos,
        pos + 2 * u.len() + 2 <= d.len(),
        d.subrange(pos, pos + 2 * u.len() + 2) == units_le_bytes(u) + seq![0u8, 0u8],
        forall|i: int| 0 <= i < u.len() ==> u[i] != 0,
    ensures
        record_at(d, pos) == Some((u, pos + 2 * u.len() + 2)),
    decreases u.len(),
{
    let e = units_le_bytes(u) + seq![0u8, 0u8];
    assert(d[pos] == e[0] && d[pos + 1] == e[1]);
    if u.len() == 0 {
        assert(le_u16(d, pos) == 0);
    } else {
        let t = u.skip(1);
        assert(units_le_bytes(u) == seq![(u[0] % 256) as u8, (u[0] / 256) as u8] + units_le_bytes(t));
        assert(le_u16(d, pos) == u[0]);
        lemma_units_le_bytes_len(t);
        let et = units_le_bytes(t) + seq![0u8, 0u8];
        assert(e =~= seq![(u[0] % 256) as u8, (u[0] / 256) as u8] + et);
        assert(d.subrange(pos + 2, pos + 2 + 2 * t.len() + 2) =~= units_le_bytes(t) + seq![0u8, 0u8]) by {
            assert forall|i: int| 0 <= i < 2 * t.len() + 2 implies d.subrange(pos + 2, pos + 2 + 2 * t.len() + 2)[i]
                == (units_le_bytes(t) + seq![0u8, 0u8])[i] by {
                assert(d.subrange(pos, pos + 2 * u.len() + 2)[i + 2] == e[i + 2]);
            }
        }
        lemma_record_at(d, pos + 2, t);
        assert(seq![u[0]] + t =~= u);
    }
}

proof fn lemma_folders_from(d: Seq<u8>, pos: int, fs: Seq<Seq<char>>, root: Seq<char>)
    requires
        0 <= pos,
        pos + folder_records(fs).len() <= d.len(),
        d.subrange(pos, pos + folder_records(fs).len()) == folder_records(fs),
        forall|i: int| 0 <= i < fs.len() ==> listable_folder(#[trigger] fs[i]),
    ensures
        folders_from(d, pos, fs.len(), root) == Some(fs.map_values(|f: Seq<char>| join_path(root, f))),
    decreases fs.len(),
{
    if fs.len() == 0 {
        assert(fs.map_values(|f: Seq<char>| join_path(root, f)) =~= Seq::<Seq<char>>::empty());
    } else {
        let f = fs[0];
        let t = fs.skip(1);
        assert(listable_folder(fs[0]));
        let u = encode_utf16(f);
        lemma_encode_utf16_nonzero(f);
        lemma_decode_encode_utf16(f);
        let rec = folder_record(f);
        assert(folder_records(fs) == rec + folder_records(t));
        assert(rec.len() == 2 * u.len() + 2) by {
            lemma_units_le_bytes_len(u);
        }
        assert(d.subrange(pos, pos + rec.len()) =~= rec) by {
            assert forall|i: int| 0 <= i < rec.len() implies d.subrange(pos, pos + rec.len())[i] == rec[i] by {
                assert(d.subrange(pos, pos + folder_records(fs).len())[i] == folder_records(fs)[i]);
            }
        }
        lemma_record_at(d, pos, u);
        let next = pos + rec.len();
        assert(d.subrange(next, next + folder_records(t).len()) =~= folder_records(t)) by {
            assert forall|i: int| 0 <= i < folder_records(t).len() implies d.subrange(next, next + folder_records(t).len())[i]
                == folder_records(t)[i] by {
                assert(d.subrange(pos, pos + folder_records(fs).len())[i + rec.len()] == folder_records(fs)[i + rec.len()]);
            }
        }
        assert forall|i: int| 0 <= i < t.len() implies listable_folder(#[trigger] t[i]) by {
            assert(t[i] == fs[i + 1]);
        }
        lemma_folders_from(d, next, t, root);
        assert(seq![join_path(root, f)] + t.map_values(|f: Seq<char>| join_path(root, f))
            =~= fs.map_values(|f: Seq<char>| join_path(root, f)));
    }
}

proof fn lemma_units_le_bytes_len(u: Seq<u16>)
    ensures
        units_le_bytes(u).len() == 2 * u.len(),
    decreases u.len(),
{
    if u.len() > 0 {
        lemma_units_le_bytes_len(u.skip(1));
    }
}

/// A `.GamingRoot` file that lists fewer than 255 relative, NUL-free folders
/// parses back to exactly those folders, in order, each joined to the root.
pub proof fn lemma_gaming_root_round_trip(root: Seq<char>, fs: Seq<Seq<char>>)
    requires
        fs.len() < 255,
        forall|i: int| 0 <= i < fs.len() ==> listable_folder(#[trigger] fs[i]),
    ensures
        gaming_root_folders(root, encode_gaming_root(fs)) == Some(
            fs.map_values(|f: Seq<char>| join_path(root, f)),
        ),
{
    let d = encode_gaming_root(fs);
    let h0 = u32_le_bytes(GAMING_ROOT_MAGIC);
    let h1 = u32_le_bytes(fs.len() as u32);
    lemma_u32_le(GAMING_ROOT_MAGIC);
    lemma_u32_le(fs.len() as u32);
    assert(le_u32(d, 0) == le_u32(h0, 0));
    assert(le_u32(d, 4) == le_u32(h1, 0));
    assert(d.subrange(8, 8 + folder_records(fs).len() as int) =~= folder_records(fs));
    lemma_folders_from(d, 8, fs, root);
}


/// A folder that a `.GamingRoot` at `root` may declare: `root` joined with a
/// plainly relative path (no drive, no root, no `..` component).
pub open spec fn folder_under_root(root: Seq<char>, f: Seq<char>) -> bool {
    exists|rel: Seq<char>| !escapes_base(rel) && f == #[trigger] join_path(root, rel)
}

proof fn lemma_join_starts_with(base: Seq<char>, rel: Seq<char>)
    ensures
        starts_with(join_path(base, rel), base),
{
    assert(join_path(base, rel).subrange(0, base.len() as int) =~= base);
}

proof fn lemma_folders_from_shape(d: Seq<u8>, pos: int, n: nat, root: Seq<char>)
    ensures
        folders_from(d, pos, n, root) matches Some(fs) ==> {
            &&& fs.len() == n
            &&& forall|i: int|
                0 <= i < fs.len() ==> folder_under_root(root, #[trigger] fs[i]) && starts_with(
                    fs[i],
                    root,
                )
        },
    decreases n,
{
    if n > 0 {
        match record_at(d, pos) {
            None => {},
            Some((units, next)) => match decode_utf16(units) {
                None => {},
                Some(folder) => {
                    if !escapes_base(folder) {
                        lemma_folders_from_shape(d, next, (n - 1) as nat, root);
                        lemma_join_starts_with(root, folder);
                        let head = join_path(root, folder);
                        assert(folder_under_root(root, head));
                        match folders_from(d, next, (n - 1) as nat, root) {
                            Some(rest) => {
                                let fs = seq![head] + rest;
                                assert forall|i: int| 0 <= i < fs.len() implies folder_under_root(
                                    root,
                                    #[trigger] fs[i],
                                ) && starts_with(fs[i], root) by {
                                    if i > 0 {
                                        assert(fs[i] == rest[i - 1]);
                                    }
                                }
                            },
                            None => {},
                        }
                    }
                },
            },
        }
    }
}

/// A `.GamingRoot` that parses declares exactly as many folders as its header
/// counts (fewer than 255), and each is the root joined with a plainly
/// relative path, so each starts with the root.
pub proof fn lemma_gaming_root_folders_shape(root: Seq<char>, d: Seq<u8>)
    ensures
        gaming_root_folders(root, d) matches Some(fs) ==> {
            &&& fs.len() == le_u32(d, 4)
            &&& fs.len() < 255
            &&& forall|i: int|
                0 <= i < fs.len() ==> folder_under_root(root, #[trigger] fs[i]) && starts_with(
                    fs[i],
                    root,
                )
        },
{
    if d.len() >= 8 && le_u32(d, 0) == GAMING_ROOT_MAGIC && le_u32(d, 4) < 255 {
        lemma_folders_from_shape(d, 8, le_u32(d, 4) as nat, root);
    }
}

} // verus!
