//! File identity: paths, their content keys, and plain configuration values.

use crate::bencode::{
    enc_str, expect_lit, lemma_starts_join, lemma_starts_split, lemma_str_at, lit, parse_str,
    push_lit, push_str, starts, str_at, text_of_utf8,
};
use vstd::prelude::*;
use vstd::slice::{slice_subrange, slice_to_vec};
use vstd::string::*;
use vstd::utf8::{
    char_u32_cast, decode_first_scalar, encode_scalar, encode_utf8, encode_utf8_decode_utf8,
    encode_utf8_first_scalar, encode_utf8_valid_utf8,
};

verus! {

/// The text that results from replacing every match of `from` in `s` by `to`,
/// scanning from the left and never letting two matches overlap.
pub open spec fn replace_all(s: Seq<char>, from: Seq<char>, to: Seq<char>) -> Seq<char>
    recommends
        from.len() > 0,
    decreases s.len(),
{
    if from.len() == 0 || s.len() < from.len() {
        s
    } else if s.subrange(0, from.len() as int) == from {
        to + replace_all(s.skip(from.len() as int), from, to)
    } else {
        seq![s[0]] + replace_all(s.skip(1), from, to)
    }
}

/// `str::replace` of the standard library, for a pattern that is not empty:
/// the result is the text with each leftmost, non-overlapping match of `from`
/// replaced by `to`. Not proved here; the body is the standard call.
#[verifier::external_body]
pub(crate) fn replace_text(s: &str, from: &str, to: &str) -> (res: String)
    requires
        from@.len() > 0,
    ensures
        res@ == replace_all(s@, from@, to@),
{
    s.replace(from, to)
}

/// The UTF-8 form of two texts one after the other is the UTF-8 form of the
/// first followed by that of the second.
pub proof fn lemma_encode_concat(a: Seq<char>, b: Seq<char>)
    ensures
        encode_utf8(a + b) == encode_utf8(a) + encode_utf8(b),
    decreases a.len(),
{
    if a.len() == 0 {
        assert(a + b =~= b);
        assert(encode_utf8(a) + encode_utf8(b) =~= encode_utf8(b));
    } else {
        lemma_encode_concat(a.drop_first(), b);
        assert((a + b).drop_first() =~= a.drop_first() + b);
        assert((a + b)[0] == a[0]);
        assert(encode_utf8(a + b) =~= encode_utf8(a) + encode_utf8(b));
    }
}

/// A text whose UTF-8 form begins the UTF-8 form of another begins that
/// other text.
pub proof fn lemma_prefix_of_encoding(h: Seq<char>, f: Seq<char>)
    requires
        encode_utf8(h).len() <= encode_utf8(f).len(),
        encode_utf8(f).subrange(0, encode_utf8(h).len() as int) == encode_utf8(h),
    ensures
        h.is_prefix_of(f),
    decreases h.len(),
{
    let eh = encode_utf8(h);
    let ef = encode_utf8(f);
    if h.len() > 0 {
        encode_utf8_first_scalar(h);
        let w = encode_scalar(h[0] as u32).len() as int;
        assert(eh =~= encode_scalar(h[0] as u32) + encode_utf8(h.drop_first()));
        assert(1 <= w <= 4 && w <= eh.len());
        assert(f.len() > 0);
        encode_utf8_first_scalar(f);
        assert forall|k: int| 0 <= k < eh.len() implies ef[k] == eh[k] by {
            assert(ef.subrange(0, eh.len() as int)[k] == ef[k]);
        }
        assert(ef[0] == eh[0]);
        if w >= 2 {
            assert(ef[1] == eh[1]);
        }
        if w >= 3 {
            assert(ef[2] == eh[2]);
        }
        if w >= 4 {
            assert(ef[3] == eh[3]);
        }
        assert(decode_first_scalar(ef) == decode_first_scalar(eh));
        char_u32_cast(h[0], h[0] as u32);
        char_u32_cast(f[0], f[0] as u32);
        assert(h[0] == f[0]);
        assert(ef =~= encode_scalar(f[0] as u32) + encode_utf8(f.drop_first()));
        let th = encode_utf8(h.drop_first());
        let tf = encode_utf8(f.drop_first());
        assert(th =~= eh.skip(w));
        assert(tf =~= ef.skip(w));
        assert(tf.subrange(0, th.len() as int) =~= th) by {
            assert forall|k: int| 0 <= k < th.len() implies tf.subrange(0, th.len() as int)[k]
                == th[k] by {
                assert(tf[k] == ef[k + w]);
                assert(th[k] == eh[k + w]);
            }
        }
        lemma_prefix_of_encoding(h.drop_first(), f.drop_first());
        assert(h =~= f.subrange(0, h.len() as int)) by {
            assert forall|k: int| 0 <= k < h.len() implies h[k] == f.subrange(
                0,
                h.len() as int,
            )[k] by {
                if k > 0 {
                    assert(h.drop_first()[k - 1] == h[k]);
                    assert(f.drop_first().subrange(0, h.len() - 1)[k - 1] == f[k]);
                }
            }
        }
    }
}

/// A text begins another exactly when its UTF-8 form begins the UTF-8 form
/// of the other, and then what follows it in the other has the rest of the
/// bytes as its UTF-8 form.
pub proof fn lemma_prefix_in_bytes(h: Seq<char>, f: Seq<char>)
    ensures
        h.is_prefix_of(f) <==> starts(encode_utf8(f), 0, encode_utf8(h)),
        h.is_prefix_of(f) ==> encode_utf8(f).skip(encode_utf8(h).len() as int) == encode_utf8(
            f.skip(h.len() as int),
        ),
{
    let eh = encode_utf8(h);
    let ef = encode_utf8(f);
    if h.is_prefix_of(f) {
        let rest = f.skip(h.len() as int);
        assert(f =~= h + rest);
        lemma_encode_concat(h, rest);
        assert(ef.subrange(0, eh.len() as int) =~= eh);
        assert(ef.skip(eh.len() as int) =~= encode_utf8(rest));
    }
    if starts(ef, 0, eh) {
        lemma_prefix_of_encoding(h, f);
    }
}

/// Description of a software version known to a peer.
#[derive(Debug)]
pub struct Version {
    pub timestamp: String,
    pub uid: String,
    /// When set, this machine has to check and update its files.
    pub update: bool,
}

/// A tracked file: its full path, and the home directory that the path is
/// made relative to when the file is named to other peers.
#[derive(Clone, Debug)]
pub struct FilePath {
    pub home: String,
    pub full: String,
}

/// What a tracked file holds, as mathematical values.
pub struct FilePathView {
    pub home: Seq<char>,
    pub full: Seq<char>,
}

impl View for FilePath {
    type V = FilePathView;

    open spec fn view(&self) -> FilePathView {
        FilePathView { home: self.home@, full: self.full@ }
    }
}

/// The path of a tracked file relative to its home directory: what follows
/// the home directory where the full path begins with it, and the full path
/// where it does not. A home directory that occurs again further down in the
/// path stays there.
pub open spec fn relative_of(v: FilePathView) -> Seq<char> {
    if v.home.len() > 0 && v.home.is_prefix_of(v.full) {
        v.full.skip(v.home.len() as int)
    } else {
        v.full
    }
}

/// The file lies under its home directory: its full path begins with it.
pub open spec fn under_home(v: FilePathView) -> bool {
    v.home.is_prefix_of(v.full)
}

/// The content key of a tracked file: the UTF-8 bytes of its relative path.
/// It depends on the path alone, never on the content, so that every peer
/// has the same key for the same relative path.
pub open spec fn key_of(v: FilePathView) -> Seq<u8> {
    encode_utf8(relative_of(v))
}

/// The content key is stable: files with the same relative path have the
/// same content key, whatever their home directories are.
pub proof fn lemma_key_follows_relative_path(a: FilePathView, b: FilePathView)
    requires
        relative_of(a) == relative_of(b),
    ensures
        key_of(a) == key_of(b),
{
}

/// One key, one file: two files under the same home directory that have the
/// same content key are the same file.
pub proof fn lemma_key_names_one_file(a: FilePathView, b: FilePathView)
    requires
        a.home == b.home,
        under_home(a),
        under_home(b),
        key_of(a) == key_of(b),
    ensures
        a.full == b.full,
{
    lemma_key_tells_paths_apart(a, b);
    let n = a.home.len() as int;
    assert(a.full.skip(n) == b.full.skip(n));
    assert(a.full.subrange(0, n) == b.full.subrange(0, n));
    assert(a.full =~= a.full.subrange(0, n) + a.full.skip(n));
    assert(b.full =~= b.full.subrange(0, n) + b.full.skip(n));
}

/// Different relative paths have different content keys.
pub proof fn lemma_key_tells_paths_apart(a: FilePathView, b: FilePathView)
    requires
        key_of(a) == key_of(b),
    ensures
        relative_of(a) == relative_of(b),
{
    encode_utf8_decode_utf8(relative_of(a));
    encode_utf8_decode_utf8(relative_of(b));
}

impl FilePath {
    /// The path relative to the home directory, as text.
    pub open spec fn relative(self) -> Seq<char> {
        relative_of(self@)
    }

    /// The content key of the file.
    pub open spec fn key(self) -> Seq<u8> {
        key_of(self@)
    }

    /// The path relative to the home directory: the full path without the
    /// home directory that it begins with.
    pub fn sub_home(&self) -> (res: String)
        ensures
            res@ == self.relative(),
    {
        if self.home.as_str().is_empty() {
            return self.full.clone();
        }
        let home = self.home.as_str().as_bytes();
        let full = self.full.as_str().as_bytes();
        proof {
            lemma_prefix_in_bytes(self.home@, self.full@);
        }
        match expect_lit(full, 0, home) {
            None => self.full.clone(),
            Some(start) => {
                let rest = slice_to_vec(slice_subrange(full, start, full.len()));
                proof {
                    assert(rest@ =~= full@.skip(start as int));
                    encode_utf8_valid_utf8(self.full@.skip(self.home@.len() as int));
                    encode_utf8_decode_utf8(self.full@.skip(self.home@.len() as int));
                }
                match text_of_utf8(rest) {
                    Some(text) => text,
                    None => vstd::pervasive::unreached(),
                }
            },
        }
    }

    /// The full path, as handed to the file system.
    pub fn to_path(&self) -> (res: &str)
        ensures
            res@ == self.full@,
    {
        self.full.as_str()
    }

    /// The content key of the file.
    pub fn to_bytes(&self) -> (res: Vec<u8>)
        ensures
            res@ == self.key(),
    {
        let rel = self.sub_home();
        rel.as_str().as_bytes_vec()
    }

    /// The wire form of the tracked file, home directory included.
    pub fn struct_to_bytes(&self) -> (res: Vec<u8>)
        ensures
            res@ == enc_file_path(self.full@, self.home@),
    {
        let mut out: Vec<u8> = Vec::new();
        push_file_path(&mut out, self);
        proof {
            assert(out@ =~= enc_file_path(self.full@, self.home@));
        }
        out
    }

    /// The tracked file that `bytes` is the wire form of, if it is that of any.
    pub fn struct_from_bytes(bytes: Vec<u8>) -> (res: Option<Self>)
        ensures
            match res {
                Some(e) => bytes@ == enc_file_path(e.full@, e.home@)
                    && decode_file_path(bytes@) == Some(e@),
                None => (forall|m: FilePathView| bytes@ != enc_file_path(m.full, m.home))
                    && decode_file_path(bytes@) is None,
            },
    {
        let ghost s = bytes@;
        let parsed = parse_file_path(bytes.as_slice(), 0);
        proof {
            assert(s.subrange(0, s.len() as int) =~= s);
            assert forall|m: FilePathView| s == enc_file_path(m.full, m.home)
                implies file_path_at(s, 0) == Some(
                (m, s.len() as int),
            ) by {
                lemma_file_path_at(s, 0, m.full, m.home);
            }
            if file_path_at(s, 0) is Some {
                lemma_file_path_at_sound(s, 0);
            }
        }
        match parsed {
            None => None,
            Some((v, end)) => {
                if end != bytes.len() {
                    return None;
                }
                proof {
                    lemma_decode_file_path(v@);
                }
                Some(v)
            },
        }
    }
}

/// The wire form of a file path: a dictionary with the keys `full` and `home`.
pub open spec fn enc_file_path(full: Seq<char>, home: Seq<char>) -> Seq<u8> {
    lit("d4:full") + enc_str(full) + lit("4:home") + enc_str(home) + lit("e")
}

/// The file path whose wire form stands at `pos`, with the position after it.
pub open spec fn file_path_at(s: Seq<u8>, pos: int) -> Option<(FilePathView, int)> {
    let r0 = str_at(s, pos + lit("d4:full").len());
    let r1 = str_at(s, r0.unwrap().1 + lit("4:home").len());
    if starts(s, pos, lit("d4:full"))
        && r0 is Some
        && starts(s, r0.unwrap().1, lit("4:home"))
        && r1 is Some
        && starts(s, r1.unwrap().1, lit("e"))
    {
        Some(
            (
                FilePathView { home: r1.unwrap().0, full: r0.unwrap().0 },
                r1.unwrap().1 + lit("e").len(),
            ),
        )
    } else {
        None
    }
}

/// Where the wire form of a file path stands, the file path is read back.
pub proof fn lemma_file_path_at(s: Seq<u8>, pos: int, full: Seq<char>, home: Seq<char>)
    requires
        starts(s, pos, enc_file_path(full, home)),
    ensures
        file_path_at(s, pos) == Some(
            (FilePathView { home: home, full: full }, pos + enc_file_path(full, home).len()),
        ),
{
    let k0 = lit("d4:full");
    let f0 = enc_str(full);
    let k1 = lit("4:home");
    let f1 = enc_str(home);
    let k2 = lit("e");
    lemma_starts_split(s, pos, k0 + f0 + k1 + f1, k2);
    lemma_starts_split(s, pos, k0 + f0 + k1, f1);
    lemma_starts_split(s, pos, k0 + f0, k1);
    lemma_starts_split(s, pos, k0, f0);
    lemma_str_at(s, pos + k0.len(), full);
    lemma_str_at(s, pos + (k0 + f0 + k1).len(), home);
}

/// What is read as a file path at `pos` is the wire form of what was read.
pub proof fn lemma_file_path_at_sound(s: Seq<u8>, pos: int)
    requires
        file_path_at(s, pos) is Some,
    ensures
        ({
            let (v, end) = file_path_at(s, pos).unwrap();
            starts(s, pos, enc_file_path(v.full, v.home))
                && end == pos + enc_file_path(v.full, v.home).len()
        }),
{
    let k0 = lit("d4:full");
    let r0 = str_at(s, pos + k0.len()).unwrap();
    let f0 = enc_str(r0.0);
    let k1 = lit("4:home");
    let r1 = str_at(s, r0.1 + k1.len()).unwrap();
    let f1 = enc_str(r1.0);
    let k2 = lit("e");
    lemma_starts_join(s, pos, k0, f0);
    lemma_starts_join(s, pos, k0 + f0, k1);
    lemma_starts_join(s, pos, k0 + f0 + k1, f1);
    lemma_starts_join(s, pos, k0 + f0 + k1 + f1, k2);
}

/// Reads the file path whose wire form stands at `pos`.
pub fn parse_file_path(buf: &[u8], pos: usize) -> (r: Option<(FilePath, usize)>)
    requires
        pos <= buf.len(),
    ensures
        match r {
            Some((v, end)) => file_path_at(buf@, pos as int) == Some((v@, end as int)),
            None => file_path_at(buf@, pos as int) is None,
        },
{
    let q0 = expect_lit(buf, pos, "d4:full".as_bytes())?;
    let (full, p1) = parse_str(buf, q0)?;
    let q1 = expect_lit(buf, p1, "4:home".as_bytes())?;
    let (home, p2) = parse_str(buf, q1)?;
    let q2 = expect_lit(buf, p2, "e".as_bytes())?;
    Some((FilePath { home, full }, q2))
}

/// Appends the wire form of a tracked file.
pub fn push_file_path(out: &mut Vec<u8>, v: &FilePath)
    ensures
        final(out)@ == old(out)@ + enc_file_path(v.full@, v.home@),
{
    push_lit(out, "d4:full".as_bytes());
    push_str(out, v.full.as_str());
    push_lit(out, "4:home".as_bytes());
    push_str(out, v.home.as_str());
    push_lit(out, "e".as_bytes());
    proof {
        assert(final(out)@ =~= old(out)@ + enc_file_path(v.full@, v.home@));
    }
}

/// Two tracked files with one wire form are the same.
pub proof fn lemma_enc_file_path_injective(a: FilePathView, b: FilePathView)
    requires
        enc_file_path(a.full, a.home) == enc_file_path(b.full, b.home),
    ensures
        a == b,
{
    let s = enc_file_path(a.full, a.home);
    assert(s.subrange(0, s.len() as int) =~= s);
    lemma_file_path_at(s, 0, a.full, a.home);
    lemma_file_path_at(s, 0, b.full, b.home);
}

/// The file that `b` is the wire form of, if it is that of any.
pub open spec fn decode_file_path(b: Seq<u8>) -> Option<FilePathView> {
    if exists|m: FilePathView| b == enc_file_path(m.full, m.home) {
        Some(choose|m: FilePathView| b == enc_file_path(m.full, m.home))
    } else {
        None
    }
}

/// Round trip: the wire form of a tracked file is read back as the same file,
/// whatever its fields hold.
pub proof fn lemma_decode_file_path(m: FilePathView)
    ensures
        decode_file_path(enc_file_path(m.full, m.home)) == Some(m),
{
    let c = choose|c: FilePathView| enc_file_path(m.full, m.home) == enc_file_path(c.full, c.home);
    lemma_enc_file_path_injective(m, c);
}

/// A copy of a tracked file.
pub fn copy_file_path(file: &FilePath) -> (res: FilePath)
    ensures
        res@ == file@,
{
    FilePath { home: file.home.clone(), full: file.full.clone() }
}

/// Settings of a node: where its version file lives, the address it listens
/// on, and the directories it keeps in step with its peers.
#[derive(Debug, Clone)]
pub struct Config {
    pub version: String,
    pub listen: String,
    pub paths: Vec<String>,
}

} // verus!
