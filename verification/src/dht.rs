//! Version records: what a node knows of one tracked file, how the record is
//! written on the wire, and how a file's content hash is made.

use crate::bencode::{
    enc_int, enc_opt_str, enc_str, expect_lit, int_at, lemma_int_at, lemma_opt_str_at,
    lemma_starts_join, lemma_starts_split, lemma_str_at, lit, opt_str_at, opt_view, parse_int,
    parse_opt_str, parse_str, push_int, push_lit, push_opt_str, push_str, starts, str_at,
};
use crate::types::{replace_all, replace_text, FilePath};
use vstd::prelude::*;
use vstd::string::*;
use vstd::utf8::encode_utf8;

verus! {

/// The version record of one tracked file. It is stored under the file's
/// content key, both in the local store and in the distributed overlay.
#[derive(PartialEq, Eq, Debug, Clone)]
pub struct DhtEntry {
    /// Hash of the most recently confirmed content.
    pub current: String,
    /// The hash that `current` superseded.
    pub previous: Option<String>,
    /// Seconds since the epoch at which the record was made.
    pub timestamp: i64,
}

/// What a version record holds, as mathematical values.
pub struct EntryView {
    pub current: Seq<char>,
    pub previous: Option<Seq<char>>,
    pub timestamp: i64,
}

impl View for DhtEntry {
    type V = EntryView;

    open spec fn view(&self) -> EntryView {
        EntryView {
            current: self.current@,
            previous: opt_view(self.previous),
            timestamp: self.timestamp,
        }
    }
}

/// The wire form of a version record: a dictionary with the keys `current`,
/// `previous` and `timestamp`, in that order.
pub open spec fn enc_entry(m: EntryView) -> Seq<u8> {
    lit("d7:current") + enc_str(m.current) + lit("8:previous") + enc_opt_str(m.previous) + lit(
        "9:timestamp",
    ) + enc_int(m.timestamp as int) + lit("e")
}

/// The version record whose wire form stands at `pos`, with the position
/// after it.
pub open spec fn entry_at(s: Seq<u8>, pos: int) -> Option<(EntryView, int)> {
    let r0 = str_at(s, pos + lit("d7:current").len());
    let r1 = opt_str_at(s, r0.unwrap().1 + lit("8:previous").len());
    let r2 = int_at(s, r1.unwrap().1 + lit("9:timestamp").len());
    if starts(s, pos, lit("d7:current"))
        && r0 is Some
        && starts(s, r0.unwrap().1, lit("8:previous"))
        && r1 is Some
        && starts(s, r1.unwrap().1, lit("9:timestamp"))
        && r2 is Some
        && starts(s, r2.unwrap().1, lit("e"))
    {
        Some(
            (
                EntryView {
                    current: r0.unwrap().0,
                    previous: r1.unwrap().0,
                    timestamp: r2.unwrap().0,
                },
                r2.unwrap().1 + lit("e").len(),
            ),
        )
    } else {
        None
    }
}

/// Where the wire form of a record stands, the record is read back.
pub proof fn lemma_entry_at(s: Seq<u8>, pos: int, m: EntryView)
    requires
        starts(s, pos, enc_entry(m)),
    ensures
        entry_at(s, pos) == Some((m, pos + enc_entry(m).len())),
{
    let k0 = lit("d7:current");
    let f0 = enc_str(m.current);
    let k1 = lit("8:previous");
    let f1 = enc_opt_str(m.previous);
    let k2 = lit("9:timestamp");
    let f2 = enc_int(m.timestamp as int);
    let k3 = lit("e");
    lemma_starts_split(s, pos, k0 + f0 + k1 + f1 + k2 + f2, k3);
    lemma_starts_split(s, pos, k0 + f0 + k1 + f1 + k2, f2);
    lemma_starts_split(s, pos, k0 + f0 + k1 + f1, k2);
    lemma_starts_split(s, pos, k0 + f0 + k1, f1);
    lemma_starts_split(s, pos, k0 + f0, k1);
    lemma_starts_split(s, pos, k0, f0);
    lemma_str_at(s, pos + k0.len(), m.current);
    lemma_opt_str_at(s, pos + (k0 + f0 + k1).len(), m.previous);
    lemma_int_at(s, pos + (k0 + f0 + k1 + f1 + k2).len(), m.timestamp);
}

/// What is read as a record at `pos` is the wire form of that record.
pub proof fn lemma_entry_at_sound(s: Seq<u8>, pos: int)
    requires
        entry_at(s, pos) is Some,
    ensures
        ({
            let (v, end) = entry_at(s, pos).unwrap();
            starts(s, pos, enc_entry(v)) && end == pos + enc_entry(v).len()
        }),
{
    let k0 = lit("d7:current");
    let r0 = str_at(s, pos + k0.len()).unwrap();
    let f0 = enc_str(r0.0);
    let k1 = lit("8:previous");
    let r1 = opt_str_at(s, r0.1 + k1.len()).unwrap();
    let f1 = enc_opt_str(r1.0);
    let k2 = lit("9:timestamp");
    let r2 = int_at(s, r1.1 + k2.len()).unwrap();
    let f2 = enc_int(r2.0 as int);
    let k3 = lit("e");
    lemma_starts_join(s, pos, k0, f0);
    lemma_starts_join(s, pos, k0 + f0, k1);
    lemma_starts_join(s, pos, k0 + f0 + k1, f1);
    lemma_starts_join(s, pos, k0 + f0 + k1 + f1, k2);
    lemma_starts_join(s, pos, k0 + f0 + k1 + f1 + k2, f2);
    lemma_starts_join(s, pos, k0 + f0 + k1 + f1 + k2 + f2, k3);
}

/// Appends the wire form of a record.
pub fn push_entry(out: &mut Vec<u8>, entry: &DhtEntry)
    ensures
        final(out)@ == old(out)@ + enc_entry(entry@),
{
    push_lit(out, "d7:current".as_bytes());
    push_str(out, entry.current.as_str());
    push_lit(out, "8:previous".as_bytes());
    push_opt_str(out, &entry.previous);
    push_lit(out, "9:timestamp".as_bytes());
    push_int(out, entry.timestamp);
    push_lit(out, "e".as_bytes());
    proof {
        assert(final(out)@ =~= old(out)@ + enc_entry(entry@));
    }
}

/// Reads the record whose wire form stands at `pos`.
pub fn parse_entry(buf: &[u8], pos: usize) -> (r: Option<(DhtEntry, usize)>)
    requires
        pos <= buf.len(),
    ensures
        match r {
            Some((e, end)) => entry_at(buf@, pos as int) == Some((e@, end as int)),
            None => entry_at(buf@, pos as int) is None,
        },
{
    let p0 = expect_lit(buf, pos, "d7:current".as_bytes())?;
    let (current, p1) = parse_str(buf, p0)?;
    let p1 = expect_lit(buf, p1, "8:previous".as_bytes())?;
    let (previous, p2) = parse_opt_str(buf, p1)?;
    let p2 = expect_lit(buf, p2, "9:timestamp".as_bytes())?;
    let (timestamp, p3) = parse_int(buf, p2)?;
    let p3 = expect_lit(buf, p3, "e".as_bytes())?;
    Some((DhtEntry { current, previous, timestamp }, p3))
}

impl DhtEntry {
    /// The wire form of the record.
    pub fn to_bytes(&self) -> (res: Vec<u8>)
        ensures
            res@ == enc_entry(self@),
    {
        let mut out: Vec<u8> = Vec::new();
        push_entry(&mut out, self);
        proof {
            assert(out@ =~= enc_entry(self@));
        }
        out
    }

    /// The record that `bytes` is the wire form of, if it is that of any.
    pub fn from_bytes(bytes: Vec<u8>) -> (res: Option<Self>)
        ensures
            match res {
                Some(e) => bytes@ == enc_entry(e@) && decode_entry(bytes@) == Some(e@),
                None => (forall|m: EntryView| bytes@ != enc_entry(m)) && decode_entry(bytes@)
                    is None,
            },
    {
        let ghost s = bytes@;
        let parsed = parse_entry(bytes.as_slice(), 0);
        proof {
            assert forall|m: EntryView| s == enc_entry(m) implies entry_at(s, 0) == Some(
                (m, s.len() as int),
            ) by {
                assert(s.subrange(0, s.len() as int) =~= s);
                lemma_entry_at(s, 0, m);
            }
            if entry_at(s, 0) is Some {
                lemma_entry_at_sound(s, 0);
            }
        }
        match parsed {
            None => None,
            Some((entry, end)) => {
                if end != bytes.len() {
                    return None;
                }
                proof {
                    assert(s.subrange(0, s.len() as int) =~= s);
                    lemma_decode_entry(entry@);
                }
                Some(entry)
            },
        }
    }
}

/// The wire form tells records apart: two records with one wire form are the
/// same record.
pub proof fn lemma_enc_entry_injective(a: EntryView, b: EntryView)
    requires
        enc_entry(a) == enc_entry(b),
    ensures
        a == b,
{
    let s = enc_entry(a);
    assert(s.subrange(0, s.len() as int) =~= s);
    lemma_entry_at(s, 0, a);
    lemma_entry_at(s, 0, b);
}

/// The record that `b` is the wire form of, if it is that of any.
pub open spec fn decode_entry(b: Seq<u8>) -> Option<EntryView> {
    if exists|m: EntryView| b == enc_entry(m) {
        Some(choose|m: EntryView| b == enc_entry(m))
    } else {
        None
    }
}

/// Round trip: the wire form of a version record is read back as the same record,
/// whatever its fields hold.
pub proof fn lemma_decode_entry(m: EntryView)
    ensures
        decode_entry(enc_entry(m)) == Some(m),
{
    let c = choose|c: EntryView| enc_entry(m) == enc_entry(c);
    lemma_enc_entry_injective(m, c);
}

/// The hash that stands for a path without content on disk.
pub open spec fn no_file() -> Seq<char> {
    "no_file"@
}

/// The SHA-256 digest of `data`, as lower-case hexadecimal text.
pub uninterp spec fn sha256_hex(data: Seq<u8>) -> Seq<char>;

/// `sha256::digest` on a byte slice: the SHA-256 digest of the bytes, written
/// as hexadecimal text, which for the 32 bytes of a digest is 64 characters
/// long. Not proved here; the body is the outside call.
#[verifier::external_body]
pub(crate) fn sha256_digest(data: &[u8]) -> (res: String)
    ensures
        res@ == sha256_hex(data@),
        res@.len() == 64,
{
    sha256::digest(data)
}

/// The content hash of a file: the digest over the bytes of its content key
/// followed by the bytes of its content.
pub open spec fn content_hash(key: Seq<u8>, content: Seq<u8>) -> Seq<char> {
    sha256_hex(key + content)
}

/// The content hash of the file with the given content key and content.
pub fn hash_of(key: &[u8], content: &[u8]) -> (res: String)
    ensures
        res@ == content_hash(key@, content@),
        res@ != no_file(),
{
    let mut comb: Vec<u8> = Vec::new();
    comb.extend_from_slice(key);
    comb.extend_from_slice(content);
    proof {
        assert(comb@ =~= key@ + content@);
        reveal_strlit("no_file");
    }
    sha256_digest(comb.as_slice())
}

/// The content hash of a tracked file, from what was read at its path:
/// nothing where the file could not be read.
pub fn path_to_hash(path: FilePath, content: Option<Vec<u8>>) -> (res: Option<String>)
    ensures
        content is None ==> res is None,
        content matches Some(bytes) ==> (res matches Some(h) && h@ == content_hash(
            path.key(),
            bytes@,
        ) && h@ != no_file()),
{
    match content {
        None => None,
        Some(bytes) => {
            let key = path.to_bytes();
            Some(hash_of(key.as_slice(), bytes.as_slice()))
        },
    }
}

/// The hash that describes what is on disk: the content hash where there is
/// content, the mark for "no file" where there is none.
pub open spec fn disk_hash_of(key: Seq<u8>, content: Option<Seq<u8>>) -> Seq<char> {
    match content {
        None => no_file(),
        Some(bytes) => content_hash(key, bytes),
    }
}

/// The hash that describes what is on disk under a content key.
pub fn disk_hash(key: &[u8], content: &Option<Vec<u8>>) -> (res: String)
    ensures
        res@ == disk_hash_of(
            key@,
            match *content {
                None => None,
                Some(bytes) => Some(bytes@),
            },
        ),
        (res@ == no_file()) == (*content is None),
{
    match content {
        None => "no_file".to_owned(),
        Some(bytes) => hash_of(key, bytes.as_slice()),
    }
}

/// The same content under the same content key always has the same hash.
pub proof fn lemma_hash_deterministic(
    key1: Seq<u8>,
    content1: Seq<u8>,
    key2: Seq<u8>,
    content2: Seq<u8>,
)
    requires
        key1 == key2,
        content1 == content2,
    ensures
        content_hash(key1, content1) == content_hash(key2, content2),
{
}

/// A record as the overlay stores it: the key it is put under and its wire
/// form. It is published without a publisher and never expires.
#[derive(PartialEq, Eq, Debug, Clone)]
pub struct Record {
    pub key: Vec<u8>,
    pub value: Vec<u8>,
}

/// The overlay record that announces `entry` for the file named `file`: the
/// key is the bytes of the name, the value the wire form of the entry.
pub fn add_to_dht(file: String, entry: DhtEntry) -> (res: Record)
    ensures
        res.key@ == encode_utf8(file@),
        res.value@ == enc_entry(entry@),
{
    let key = file.as_str().as_bytes_vec();
    let value = entry.to_bytes();
    Record { key, value }
}

/// The key of one column of the version table for one index: the pattern
/// `versions:col:idx` with the column's name put in for `col`, and then the
/// index for every `idx` in what results.
pub open spec fn version_key(col: Seq<char>, index: Seq<char>) -> Seq<char> {
    replace_all(replace_all("versions:col:idx"@, "col"@, col), "idx"@, index)
}

/// The key under which one column of the version table is looked up.
pub fn check_col_from_version(index: String, col: String) -> (res: String)
    ensures
        res@ == version_key(col@, index@),
{
    proof {
        reveal_strlit("col");
        reveal_strlit("idx");
    }
    let with_col = replace_text("versions:col:idx", "col", col.as_str());
    replace_text(with_col.as_str(), "idx", index.as_str())
}

/// The columns of the version table.
pub open spec fn version_columns() -> Seq<Seq<char>> {
    seq![
        "current_version"@,
        "timestamp"@,
        "previous_version"@,
        "patch"@,
        "locations"@,
    ]
}

/// The keys to remove from the overlay when the version entry of `index` is
/// deleted: one for each column, in the order of the columns.
pub fn delete_from_version(index: String) -> (res: Vec<String>)
    ensures
        res@.len() == version_columns().len(),
        forall|i: int|
            0 <= i < res@.len() ==> (#[trigger] res@[i])@ == version_key(
                version_columns()[i],
                index@,
            ),
{
    let mut keys: Vec<String> = Vec::new();
    keys.push(check_col_from_version(index.clone(), "current_version".to_owned()));
    keys.push(check_col_from_version(index.clone(), "timestamp".to_owned()));
    keys.push(check_col_from_version(index.clone(), "previous_version".to_owned()));
    keys.push(check_col_from_version(index.clone(), "patch".to_owned()));
    keys.push(check_col_from_version(index, "locations".to_owned()));
    keys
}

} // verus!
