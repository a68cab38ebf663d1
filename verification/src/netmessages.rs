//! Change notices: the messages that nodes broadcast to one another, and
//! their wire form.

use crate::bencode::{
    byte_list_at, enc_byte_list, enc_int, enc_str, expect_lit, int_at, lemma_byte_list_at,
    lemma_int_at, lemma_starts_join, lemma_starts_split, lemma_str_at, lit, parse_byte_list,
    parse_int, parse_str, push_byte_list, push_int, push_lit, push_str, starts, str_at,
};
use vstd::prelude::*;
use vstd::string::*;
use vstd::utf8::is_ascii_chars_encode_utf8;

verus! {

/// A change notice. Once sent it is never altered.
#[derive(PartialEq, Debug)]
pub enum Messages {
    /// The origin peer forces its state of the path on everyone.
    Pushed { path: String, peerid: Vec<u8> },
    /// A file appeared at the path on the origin peer.
    Added { path: String, peerid: Vec<u8> },
    /// The file at the path changed on the origin peer; `patch` leads from
    /// the previous content to the new one.
    Changed { path: String, patch: String, peerid: Vec<u8> },
    /// The file at the path was removed on the origin peer.
    Removed { path: String, peerid: Vec<u8> },
    /// A probe sent while reconciling: the wire form of a tracked file, and
    /// the time of the probe.
    FileCheck { filepath: Vec<u8>, timestamp: i64 },
    /// A whole file together with its version record.
    FileUpdate { path: String, current: String, previous: String, timestamp: i64, data: Vec<u8> },
}

/// What a change notice holds, as mathematical values.
pub enum MessageView {
    Pushed { path: Seq<char>, peerid: Seq<u8> },
    Added { path: Seq<char>, peerid: Seq<u8> },
    Changed { path: Seq<char>, patch: Seq<char>, peerid: Seq<u8> },
    Removed { path: Seq<char>, peerid: Seq<u8> },
    FileCheck { filepath: Seq<u8>, timestamp: i64 },
    FileUpdate {
        path: Seq<char>,
        current: Seq<char>,
        previous: Seq<char>,
        timestamp: i64,
        data: Seq<u8>,
    },
}

impl View for Messages {
    type V = MessageView;

    open spec fn view(&self) -> MessageView {
        match self {
            Messages::Pushed { path, peerid } => MessageView::Pushed {
                path: path@,
                peerid: peerid@,
            },
            Messages::Added { path, peerid } => MessageView::Added {
                path: path@,
                peerid: peerid@,
            },
            Messages::Changed { path, patch, peerid } => MessageView::Changed {
                path: path@,
                patch: patch@,
                peerid: peerid@,
            },
            Messages::Removed { path, peerid } => MessageView::Removed {
                path: path@,
                peerid: peerid@,
            },
            Messages::FileCheck { filepath, timestamp } => MessageView::FileCheck {
                filepath: filepath@,
                timestamp: *timestamp,
            },
            Messages::FileUpdate { path, current, previous, timestamp, data } => {
                MessageView::FileUpdate {
                    path: path@,
                    current: current@,
                    previous: previous@,
                    timestamp: *timestamp,
                    data: data@,
                }
            },
        }
    }
}

/// The wire form of a change notice.
pub open spec fn enc_message(m: MessageView) -> Seq<u8> {
    match m {
        MessageView::Pushed { path, peerid } => enc_pushed(path, peerid),
        MessageView::Added { path, peerid } => enc_added(path, peerid),
        MessageView::Changed { path, patch, peerid } => enc_changed(patch, path, peerid),
        MessageView::Removed { path, peerid } => enc_removed(path, peerid),
        MessageView::FileCheck { filepath, timestamp } => enc_file_check(filepath, timestamp),
        MessageView::FileUpdate { path, current, previous, timestamp, data } => enc_file_update(
            current,
            data,
            path,
            previous,
            timestamp,
        ),
    }
}

/// The wire form of the notice of a forced resynchronisation: the variant name
/// mapped to a dictionary of its fields, keys in byte order.
pub open spec fn enc_pushed(path: Seq<char>, peerid: Seq<u8>) -> Seq<u8> {
    lit("d6:Pushedd4:path") + enc_str(path) + lit("6:peerid") + enc_byte_list(peerid) + lit("ee")
}

/// The notice of a forced resynchronisation whose wire form stands at `pos`,
/// with the position after it.
pub open spec fn pushed_at(s: Seq<u8>, pos: int) -> Option<(MessageView, int)> {
    let r0 = str_at(s, pos + lit("d6:Pushedd4:path").len());
    let r1 = byte_list_at(s, r0.unwrap().1 + lit("6:peerid").len());
    if starts(s, pos, lit("d6:Pushedd4:path"))
        && r0 is Some
        && starts(s, r0.unwrap().1, lit("6:peerid"))
        && r1 is Some
        && starts(s, r1.unwrap().1, lit("ee"))
    {
        Some(
            (
                MessageView::Pushed { path: r0.unwrap().0, peerid: r1.unwrap().0 },
                r1.unwrap().1 + lit("ee").len(),
            ),
        )
    } else {
        None
    }
}

/// Where the wire form of the notice of a forced resynchronisation stands, the
/// notice is read back.
pub proof fn lemma_pushed_at(s: Seq<u8>, pos: int, path: Seq<char>, peerid: Seq<u8>)
    requires
        starts(s, pos, enc_pushed(path, peerid)),
    ensures
        pushed_at(s, pos) == Some(
            (
                MessageView::Pushed { path, peerid },
                pos + enc_pushed(path, peerid).len(),
            ),
        ),
{
    let k0 = lit("d6:Pushedd4:path");
    let f0 = enc_str(path);
    let k1 = lit("6:peerid");
    let f1 = enc_byte_list(peerid);
    let k2 = lit("ee");
    lemma_starts_split(s, pos, k0 + f0 + k1 + f1, k2);
    lemma_starts_split(s, pos, k0 + f0 + k1, f1);
    lemma_starts_split(s, pos, k0 + f0, k1);
    lemma_starts_split(s, pos, k0, f0);
    lemma_str_at(s, pos + k0.len(), path);
    lemma_byte_list_at(s, pos + (k0 + f0 + k1).len(), peerid);
}

/// What is read as the notice of a forced resynchronisation at `pos` is the
/// wire form of what was read.
pub proof fn lemma_pushed_at_sound(s: Seq<u8>, pos: int)
    requires
        pushed_at(s, pos) is Some,
    ensures
        ({
            let (v, end) = pushed_at(s, pos).unwrap();
            starts(s, pos, enc_message(v)) && end == pos + enc_message(v).len()
        }),
{
    let k0 = lit("d6:Pushedd4:path");
    let r0 = str_at(s, pos + k0.len()).unwrap();
    let f0 = enc_str(r0.0);
    let k1 = lit("6:peerid");
    let r1 = byte_list_at(s, r0.1 + k1.len()).unwrap();
    let f1 = enc_byte_list(r1.0);
    let k2 = lit("ee");
    lemma_starts_join(s, pos, k0, f0);
    lemma_starts_join(s, pos, k0 + f0, k1);
    lemma_starts_join(s, pos, k0 + f0 + k1, f1);
    lemma_starts_join(s, pos, k0 + f0 + k1 + f1, k2);
}

/// Reads the notice of a forced resynchronisation whose wire form stands at
/// `pos`.
pub fn parse_pushed(buf: &[u8], pos: usize) -> (r: Option<(Messages, usize)>)
    requires
        pos <= buf.len(),
    ensures
        match r {
            Some((v, end)) => pushed_at(buf@, pos as int) == Some((v@, end as int)),
            None => pushed_at(buf@, pos as int) is None,
        },
{
    let q0 = expect_lit(buf, pos, "d6:Pushedd4:path".as_bytes())?;
    let (path, p1) = parse_str(buf, q0)?;
    let q1 = expect_lit(buf, p1, "6:peerid".as_bytes())?;
    let (peerid, p2) = parse_byte_list(buf, q1)?;
    let q2 = expect_lit(buf, p2, "ee".as_bytes())?;
    Some((Messages::Pushed { path, peerid }, q2))
}

/// Appends the wire form of the notice of a forced resynchronisation.
pub fn push_pushed(out: &mut Vec<u8>, path: &String, peerid: &Vec<u8>)
    ensures
        final(out)@ == old(out)@ + enc_pushed(path@, peerid@),
{
    push_lit(out, "d6:Pushedd4:path".as_bytes());
    push_str(out, path.as_str());
    push_lit(out, "6:peerid".as_bytes());
    push_byte_list(out, peerid.as_slice());
    push_lit(out, "ee".as_bytes());
    proof {
        assert(final(out)@ =~= old(out)@ + enc_pushed(path@, peerid@));
    }
}

/// The wire form of the notice of an added file: the variant name mapped to a
/// dictionary of its fields, keys in byte order.
pub open spec fn enc_added(path: Seq<char>, peerid: Seq<u8>) -> Seq<u8> {
    lit("d5:Addedd4:path") + enc_str(path) + lit("6:peerid") + enc_byte_list(peerid) + lit("ee")
}

/// The notice of an added file whose wire form stands at `pos`, with the
/// position after it.
pub open spec fn added_at(s: Seq<u8>, pos: int) -> Option<(MessageView, int)> {
    let r0 = str_at(s, pos + lit("d5:Addedd4:path").len());
    let r1 = byte_list_at(s, r0.unwrap().1 + lit("6:peerid").len());
    if starts(s, pos, lit("d5:Addedd4:path"))
        && r0 is Some
        && starts(s, r0.unwrap().1, lit("6:peerid"))
        && r1 is Some
        && starts(s, r1.unwrap().1, lit("ee"))
    {
        Some(
            (
                MessageView::Added { path: r0.unwrap().0, peerid: r1.unwrap().0 },
                r1.unwrap().1 + lit("ee").len(),
            ),
        )
    } else {
        None
    }
}

/// Where the wire form of the notice of an added file stands, the notice is
/// read back.
pub proof fn lemma_added_at(s: Seq<u8>, pos: int, path: Seq<char>, peerid: Seq<u8>)
    requires
        starts(s, pos, enc_added(path, peerid)),
    ensures
        added_at(s, pos) == Some(
            (
                MessageView::Added { path, peerid },
                pos + enc_added(path, peerid).len(),
            ),
        ),
{
    let k0 = lit("d5:Addedd4:path");
    let f0 = enc_str(path);
    let k1 = lit("6:peerid");
    let f1 = enc_byte_list(peerid);
    let k2 = lit("ee");
    lemma_starts_split(s, pos, k0 + f0 + k1 + f1, k2);
    lemma_starts_split(s, pos, k0 + f0 + k1, f1);
    lemma_starts_split(s, pos, k0 + f0, k1);
    lemma_starts_split(s, pos, k0, f0);
    lemma_str_at(s, pos + k0.len(), path);
    lemma_byte_list_at(s, pos + (k0 + f0 + k1).len(), peerid);
}

/// What is read as the notice of an added file at `pos` is the wire form of
/// what was read.
pub proof fn lemma_added_at_sound(s: Seq<u8>, pos: int)
    requires
        added_at(s, pos) is Some,
    ensures
        ({
            let (v, end) = added_at(s, pos).unwrap();
            starts(s, pos, enc_message(v)) && end == pos + enc_message(v).len()
        }),
{
    let k0 = lit("d5:Addedd4:path");
    let r0 = str_at(s, pos + k0.len()).unwrap();
    let f0 = enc_str(r0.0);
    let k1 = lit("6:peerid");
    let r1 = byte_list_at(s, r0.1 + k1.len()).unwrap();
    let f1 = enc_byte_list(r1.0);
    let k2 = lit("ee");
    lemma_starts_join(s, pos, k0, f0);
    lemma_starts_join(s, pos, k0 + f0, k1);
    lemma_starts_join(s, pos, k0 + f0 + k1, f1);
    lemma_starts_join(s, pos, k0 + f0 + k1 + f1, k2);
}

/// Reads the notice of an added file whose wire form stands at `pos`.
pub fn parse_added(buf: &[u8], pos: usize) -> (r: Option<(Messages, usize)>)
    requires
        pos <= buf.len(),
    ensures
        match r {
            Some((v, end)) => added_at(buf@, pos as int) == Some((v@, end as int)),
            None => added_at(buf@, pos as int) is None,
        },
{
    let q0 = expect_lit(buf, pos, "d5:Addedd4:path".as_bytes())?;
    let (path, p1) = parse_str(buf, q0)?;
    let q1 = expect_lit(buf, p1, "6:peerid".as_bytes())?;
    let (peerid, p2) = parse_byte_list(buf, q1)?;
    let q2 = expect_lit(buf, p2, "ee".as_bytes())?;
    Some((Messages::Added { path, peerid }, q2))
}

/// Appends the wire form of the notice of an added file.
pub fn push_added(out: &mut Vec<u8>, path: &String, peerid: &Vec<u8>)
    ensures
        final(out)@ == old(out)@ + enc_added(path@, peerid@),
{
    push_lit(out, "d5:Addedd4:path".as_bytes());
    push_str(out, path.as_str());
    push_lit(out, "6:peerid".as_bytes());
    push_byte_list(out, peerid.as_slice());
    push_lit(out, "ee".as_bytes());
    proof {
        assert(final(out)@ =~= old(out)@ + enc_added(path@, peerid@));
    }
}

/// The wire form of the notice of a changed file: the variant name mapped to a
/// dictionary of its fields, keys in byte order.
pub open spec fn enc_changed(patch: Seq<char>, path: Seq<char>, peerid: Seq<u8>) -> Seq<u8> {
    lit("d7:Changedd5:patch") + enc_str(patch) + lit("4:path") + enc_str(path) + lit("6:peerid")
        + enc_byte_list(peerid) + lit("ee")
}

/// The notice of a changed file whose wire form stands at `pos`, with the
/// position after it.
pub open spec fn changed_at(s: Seq<u8>, pos: int) -> Option<(MessageView, int)> {
    let r0 = str_at(s, pos + lit("d7:Changedd5:patch").len());
    let r1 = str_at(s, r0.unwrap().1 + lit("4:path").len());
    let r2 = byte_list_at(s, r1.unwrap().1 + lit("6:peerid").len());
    if starts(s, pos, lit("d7:Changedd5:patch"))
        && r0 is Some
        && starts(s, r0.unwrap().1, lit("4:path"))
        && r1 is Some
        && starts(s, r1.unwrap().1, lit("6:peerid"))
        && r2 is Some
        && starts(s, r2.unwrap().1, lit("ee"))
    {
        Some(
            (
                MessageView::Changed {
                    patch: r0.unwrap().0,
                    path: r1.unwrap().0,
                    peerid: r2.unwrap().0,
                },
                r2.unwrap().1 + lit("ee").len(),
            ),
        )
    } else {
        None
    }
}

/// Where the wire form of the notice of a changed file stands, the notice is
/// read back.
pub proof fn lemma_changed_at(
    s: Seq<u8>,
    pos: int,
    patch: Seq<char>,
    path: Seq<char>,
    peerid: Seq<u8>,
)
    requires
        starts(s, pos, enc_changed(patch, path, peerid)),
    ensures
        changed_at(s, pos) == Some(
            (
                MessageView::Changed { patch, path, peerid },
                pos + enc_changed(patch, path, peerid).len(),
            ),
        ),
{
    let k0 = lit("d7:Changedd5:patch");
    let f0 = enc_str(patch);
    let k1 = lit("4:path");
    let f1 = enc_str(path);
    let k2 = lit("6:peerid");
    let f2 = enc_byte_list(peerid);
    let k3 = lit("ee");
    lemma_starts_split(s, pos, k0 + f0 + k1 + f1 + k2 + f2, k3);
    lemma_starts_split(s, pos, k0 + f0 + k1 + f1 + k2, f2);
    lemma_starts_split(s, pos, k0 + f0 + k1 + f1, k2);
    lemma_starts_split(s, pos, k0 + f0 + k1, f1);
    lemma_starts_split(s, pos, k0 + f0, k1);
    lemma_starts_split(s, pos, k0, f0);
    lemma_str_at(s, pos + k0.len(), patch);
    lemma_str_at(s, pos + (k0 + f0 + k1).len(), path);
    lemma_byte_list_at(s, pos + (k0 + f0 + k1 + f1 + k2).len(), peerid);
}

/// What is read as the notice of a changed file at `pos` is the wire form of
/// what was read.
pub proof fn lemma_changed_at_sound(s: Seq<u8>, pos: int)
    requires
        changed_at(s, pos) is Some,
    ensures
        ({
            let (v, end) = changed_at(s, pos).unwrap();
            starts(s, pos, enc_message(v)) && end == pos + enc_message(v).len()
        }),
{
    let k0 = lit("d7:Changedd5:patch");
    let r0 = str_at(s, pos + k0.len()).unwrap();
    let f0 = enc_str(r0.0);
    let k1 = lit("4:path");
    let r1 = str_at(s, r0.1 + k1.len()).unwrap();
    let f1 = enc_str(r1.0);
    let k2 = lit("6:peerid");
    let r2 = byte_list_at(s, r1.1 + k2.len()).unwrap();
    let f2 = enc_byte_list(r2.0);
    let k3 = lit("ee");
    lemma_starts_join(s, pos, k0, f0);
    lemma_starts_join(s, pos, k0 + f0, k1);
    lemma_starts_join(s, pos, k0 + f0 + k1, f1);
    lemma_starts_join(s, pos, k0 + f0 + k1 + f1, k2);
    lemma_starts_join(s, pos, k0 + f0 + k1 + f1 + k2, f2);
    lemma_starts_join(s, pos, k0 + f0 + k1 + f1 + k2 + f2, k3);
}

/// Reads the notice of a changed file whose wire form stands at `pos`.
pub fn parse_changed(buf: &[u8], pos: usize) -> (r: Option<(Messages, usize)>)
    requires
        pos <= buf.len(),
    ensures
        match r {
            Some((v, end)) => changed_at(buf@, pos as int) == Some((v@, end as int)),
            None => changed_at(buf@, pos as int) is None,
        },
{
    let q0 = expect_lit(buf, pos, "d7:Changedd5:patch".as_bytes())?;
    let (patch, p1) = parse_str(buf, q0)?;
    let q1 = expect_lit(buf, p1, "4:path".as_bytes())?;
    let (path, p2) = parse_str(buf, q1)?;
    let q2 = expect_lit(buf, p2, "6:peerid".as_bytes())?;
    let (peerid, p3) = parse_byte_list(buf, q2)?;
    let q3 = expect_lit(buf, p3, "ee".as_bytes())?;
    Some((Messages::Changed { patch, path, peerid }, q3))
}

/// Appends the wire form of the notice of a changed file.
pub fn push_changed(out: &mut Vec<u8>, patch: &String, path: &String, peerid: &Vec<u8>)
    ensures
        final(out)@ == old(out)@ + enc_changed(patch@, path@, peerid@),
{
    push_lit(out, "d7:Changedd5:patch".as_bytes());
    push_str(out, patch.as_str());
    push_lit(out, "4:path".as_bytes());
    push_str(out, path.as_str());
    push_lit(out, "6:peerid".as_bytes());
    push_byte_list(out, peerid.as_slice());
    push_lit(out, "ee".as_bytes());
    proof {
        assert(final(out)@ =~= old(out)@ + enc_changed(patch@, path@, peerid@));
    }
}

/// The wire form of the notice of a removed file: the variant name mapped to a
/// dictionary of its fields, keys in byte order.
pub open spec fn enc_removed(path: Seq<char>, peerid: Seq<u8>) -> Seq<u8> {
    lit("d7:Removedd4:path") + enc_str(path) + lit("6:peerid") + enc_byte_list(peerid) + lit("ee")
}

/// The notice of a removed file whose wire form stands at `pos`, with the
/// position after it.
pub open spec fn removed_at(s: Seq<u8>, pos: int) -> Option<(MessageView, int)> {
    let r0 = str_at(s, pos + lit("d7:Removedd4:path").len());
    let r1 = byte_list_at(s, r0.unwrap().1 + lit("6:peerid").len());
    if starts(s, pos, lit("d7:Removedd4:path"))
        && r0 is Some
        && starts(s, r0.unwrap().1, lit("6:peerid"))
        && r1 is Some
        && starts(s, r1.unwrap().1, lit("ee"))
    {
        Some(
            (
                MessageView::Removed { path: r0.unwrap().0, peerid: r1.unwrap().0 },
                r1.unwrap().1 + lit("ee").len(),
            ),
        )
    } else {
        None
    }
}

/// Where the wire form of the notice of a removed file stands, the notice is
/// read back.
pub proof fn lemma_removed_at(s: Seq<u8>, pos: int, path: Seq<char>, peerid: Seq<u8>)
    requires
        starts(s, pos, enc_removed(path, peerid)),
    ensures
        removed_at(s, pos) == Some(
            (
                MessageView::Removed { path, peerid },
                pos + enc_removed(path, peerid).len(),
            ),
        ),
{
    let k0 = lit("d7:Removedd4:path");
    let f0 = enc_str(path);
    let k1 = lit("6:peerid");
    let f1 = enc_byte_list(peerid);
    let k2 = lit("ee");
    lemma_starts_split(s, pos, k0 + f0 + k1 + f1, k2);
    lemma_starts_split(s, pos, k0 + f0 + k1, f1);
    lemma_starts_split(s, pos, k0 + f0, k1);
    lemma_starts_split(s, pos, k0, f0);
    lemma_str_at(s, pos + k0.len(), path);
    lemma_byte_list_at(s, pos + (k0 + f0 + k1).len(), peerid);
}

/// What is read as the notice of a removed file at `pos` is the wire form of
/// what was read.
pub proof fn lemma_removed_at_sound(s: Seq<u8>, pos: int)
    requires
        removed_at(s, pos) is Some,
    ensures
        ({
            let (v, end) = removed_at(s, pos).unwrap();
            starts(s, pos, enc_message(v)) && end == pos + enc_message(v).len()
        }),
{
    let k0 = lit("d7:Removedd4:path");
    let r0 = str_at(s, pos + k0.len()).unwrap();
    let f0 = enc_str(r0.0);
    let k1 = lit("6:peerid");
    let r1 = byte_list_at(s, r0.1 + k1.len()).unwrap();
    let f1 = enc_byte_list(r1.0);
    let k2 = lit("ee");
    lemma_starts_join(s, pos, k0, f0);
    lemma_starts_join(s, pos, k0 + f0, k1);
    lemma_starts_join(s, pos, k0 + f0 + k1, f1);
    lemma_starts_join(s, pos, k0 + f0 + k1 + f1, k2);
}

/// Reads the notice of a removed file whose wire form stands at `pos`.
pub fn parse_removed(buf: &[u8], pos: usize) -> (r: Option<(Messages, usize)>)
    requires
        pos <= buf.len(),
    ensures
        match r {
            Some((v, end)) => removed_at(buf@, pos as int) == Some((v@, end as int)),
            None => removed_at(buf@, pos as int) is None,
        },
{
    let q0 = expect_lit(buf, pos, "d7:Removedd4:path".as_bytes())?;
    let (path, p1) = parse_str(buf, q0)?;
    let q1 = expect_lit(buf, p1, "6:peerid".as_bytes())?;
    let (peerid, p2) = parse_byte_list(buf, q1)?;
    let q2 = expect_lit(buf, p2, "ee".as_bytes())?;
    Some((Messages::Removed { path, peerid }, q2))
}

/// Appends the wire form of the notice of a removed file.
pub fn push_removed(out: &mut Vec<u8>, path: &String, peerid: &Vec<u8>)
    ensures
        final(out)@ == old(out)@ + enc_removed(path@, peerid@),
{
    push_lit(out, "d7:Removedd4:path".as_bytes());
    push_str(out, path.as_str());
    push_lit(out, "6:peerid".as_bytes());
    push_byte_list(out, peerid.as_slice());
    push_lit(out, "ee".as_bytes());
    proof {
        assert(final(out)@ =~= old(out)@ + enc_removed(path@, peerid@));
    }
}

/// The wire form of the notice of a reconciliation probe: the variant name
/// mapped to a dictionary of its fields, keys in byte order.
pub open spec fn enc_file_check(filepath: Seq<u8>, timestamp: i64) -> Seq<u8> {
    lit("d9:FileCheckd8:filepath") + enc_byte_list(filepath) + lit("9:timestamp")
        + enc_int(timestamp as int) + lit("ee")
}

/// The notice of a reconciliation probe whose wire form stands at `pos`, with
/// the position after it.
pub open spec fn file_check_at(s: Seq<u8>, pos: int) -> Option<(MessageView, int)> {
    let r0 = byte_list_at(s, pos + lit("d9:FileCheckd8:filepath").len());
    let r1 = int_at(s, r0.unwrap().1 + lit("9:timestamp").len());
    if starts(s, pos, lit("d9:FileCheckd8:filepath"))
        && r0 is Some
        && starts(s, r0.unwrap().1, lit("9:timestamp"))
        && r1 is Some
        && starts(s, r1.unwrap().1, lit("ee"))
    {
        Some(
            (
                MessageView::FileCheck { filepath: r0.unwrap().0, timestamp: r1.unwrap().0 },
                r1.unwrap().1 + lit("ee").len(),
            ),
        )
    } else {
        None
    }
}

/// Where the wire form of the notice of a reconciliation probe stands, the
/// notice is read back.
pub proof fn lemma_file_check_at(s: Seq<u8>, pos: int, filepath: Seq<u8>, timestamp: i64)
    requires
        starts(s, pos, enc_file_check(filepath, timestamp)),
    ensures
        file_check_at(s, pos) == Some(
            (
                MessageView::FileCheck { filepath, timestamp },
                pos + enc_file_check(filepath, timestamp).len(),
            ),
        ),
{
    let k0 = lit("d9:FileCheckd8:filepath");
    let f0 = enc_byte_list(filepath);
    let k1 = lit("9:timestamp");
    let f1 = enc_int(timestamp as int);
    let k2 = lit("ee");
    lemma_starts_split(s, pos, k0 + f0 + k1 + f1, k2);
    lemma_starts_split(s, pos, k0 + f0 + k1, f1);
    lemma_starts_split(s, pos, k0 + f0, k1);
    lemma_starts_split(s, pos, k0, f0);
    lemma_byte_list_at(s, pos + k0.len(), filepath);
    lemma_int_at(s, pos + (k0 + f0 + k1).len(), timestamp);
}

/// What is read as the notice of a reconciliation probe at `pos` is the wire
/// form of what was read.
pub proof fn lemma_file_check_at_sound(s: Seq<u8>, pos: int)
    requires
        file_check_at(s, pos) is Some,
    ensures
        ({
            let (v, end) = file_check_at(s, pos).unwrap();
            starts(s, pos, enc_message(v)) && end == pos + enc_message(v).len()
        }),
{
    let k0 = lit("d9:FileCheckd8:filepath");
    let r0 = byte_list_at(s, pos + k0.len()).unwrap();
    let f0 = enc_byte_list(r0.0);
    let k1 = lit("9:timestamp");
    let r1 = int_at(s, r0.1 + k1.len()).unwrap();
    let f1 = enc_int(r1.0 as int);
    let k2 = lit("ee");
    lemma_starts_join(s, pos, k0, f0);
    lemma_starts_join(s, pos, k0 + f0, k1);
    lemma_starts_join(s, pos, k0 + f0 + k1, f1);
    lemma_starts_join(s, pos, k0 + f0 + k1 + f1, k2);
}

/// Reads the notice of a reconciliation probe whose wire form stands at `pos`.
pub fn parse_file_check(buf: &[u8], pos: usize) -> (r: Option<(Messages, usize)>)
    requires
        pos <= buf.len(),
    ensures
        match r {
            Some((v, end)) => file_check_at(buf@, pos as int) == Some((v@, end as int)),
            None => file_check_at(buf@, pos as int) is None,
        },
{
    let q0 = expect_lit(buf, pos, "d9:FileCheckd8:filepath".as_bytes())?;
    let (filepath, p1) = parse_byte_list(buf, q0)?;
    let q1 = expect_lit(buf, p1, "9:timestamp".as_bytes())?;
    let (timestamp, p2) = parse_int(buf, q1)?;
    let q2 = expect_lit(buf, p2, "ee".as_bytes())?;
    Some((Messages::FileCheck { filepath, timestamp }, q2))
}

/// Appends the wire form of the notice of a reconciliation probe.
pub fn push_file_check(out: &mut Vec<u8>, filepath: &Vec<u8>, timestamp: i64)
    ensures
        final(out)@ == old(out)@ + enc_file_check(filepath@, timestamp),
{
    push_lit(out, "d9:FileCheckd8:filepath".as_bytes());
    push_byte_list(out, filepath.as_slice());
    push_lit(out, "9:timestamp".as_bytes());
    push_int(out, timestamp);
    push_lit(out, "ee".as_bytes());
    proof {
        assert(final(out)@ =~= old(out)@ + enc_file_check(filepath@, timestamp));
    }
}

/// The wire form of the notice of a file update: the variant name mapped to a
/// dictionary of its fields, keys in byte order.
pub open spec fn enc_file_update(
    current: Seq<char>,
    data: Seq<u8>,
    path: Seq<char>,
    previous: Seq<char>,
    timestamp: i64,
) -> Seq<u8> {
    lit("d10:FileUpdated7:current") + enc_str(current) + lit("4:data") + enc_byte_list(data)
        + lit("4:path") + enc_str(path) + lit("8:previous") + enc_str(previous)
        + lit("9:timestamp") + enc_int(timestamp as int) + lit("ee")
}

/// The notice of a file update whose wire form stands at `pos`, with the
/// position after it.
pub open spec fn file_update_at(s: Seq<u8>, pos: int) -> Option<(MessageView, int)> {
    let r0 = str_at(s, pos + lit("d10:FileUpdated7:current").len());
    let r1 = byte_list_at(s, r0.unwrap().1 + lit("4:data").len());
    let r2 = str_at(s, r1.unwrap().1 + lit("4:path").len());
    let r3 = str_at(s, r2.unwrap().1 + lit("8:previous").len());
    let r4 = int_at(s, r3.unwrap().1 + lit("9:timestamp").len());
    if starts(s, pos, lit("d10:FileUpdated7:current"))
        && r0 is Some
        && starts(s, r0.unwrap().1, lit("4:data"))
        && r1 is Some
        && starts(s, r1.unwrap().1, lit("4:path"))
        && r2 is Some
        && starts(s, r2.unwrap().1, lit("8:previous"))
        && r3 is Some
        && starts(s, r3.unwrap().1, lit("9:timestamp"))
        && r4 is Some
        && starts(s, r4.unwrap().1, lit("ee"))
    {
        Some(
            (
                MessageView::FileUpdate {
                    current: r0.unwrap().0,
                    data: r1.unwrap().0,
                    path: r2.unwrap().0,
                    previous: r3.unwrap().0,
                    timestamp: r4.unwrap().0,
                },
                r4.unwrap().1 + lit("ee").len(),
            ),
        )
    } else {
        None
    }
}

/// Where the wire form of the notice of a file update stands, the notice is
/// read back.
#[verifier::rlimit(40)]
pub proof fn lemma_file_update_at(
    s: Seq<u8>,
    pos: int,
    current: Seq<char>,
    data: Seq<u8>,
    path: Seq<char>,
    previous: Seq<char>,
    timestamp: i64,
)
    requires
        starts(s, pos, enc_file_update(current, data, path, previous, timestamp)),
    ensures
        file_update_at(s, pos) == Some(
            (
                MessageView::FileUpdate {
                    current,
                    data,
                    path,
                    previous,
                    timestamp,
                },
                pos + enc_file_update(current, data, path, previous, timestamp).len(),
            ),
        ),
{
    let k0 = lit("d10:FileUpdated7:current");
    let f0 = enc_str(current);
    let k1 = lit("4:data");
    let f1 = enc_byte_list(data);
    let k2 = lit("4:path");
    let f2 = enc_str(path);
    let k3 = lit("8:previous");
    let f3 = enc_str(previous);
    let k4 = lit("9:timestamp");
    let f4 = enc_int(timestamp as int);
    let k5 = lit("ee");
    lemma_starts_split(s, pos, k0 + f0 + k1 + f1 + k2 + f2 + k3 + f3 + k4 + f4, k5);
    lemma_starts_split(s, pos, k0 + f0 + k1 + f1 + k2 + f2 + k3 + f3 + k4, f4);
    lemma_starts_split(s, pos, k0 + f0 + k1 + f1 + k2 + f2 + k3 + f3, k4);
    lemma_starts_split(s, pos, k0 + f0 + k1 + f1 + k2 + f2 + k3, f3);
    lemma_starts_split(s, pos, k0 + f0 + k1 + f1 + k2 + f2, k3);
    lemma_starts_split(s, pos, k0 + f0 + k1 + f1 + k2, f2);
    lemma_starts_split(s, pos, k0 + f0 + k1 + f1, k2);
    lemma_starts_split(s, pos, k0 + f0 + k1, f1);
    lemma_starts_split(s, pos, k0 + f0, k1);
    lemma_starts_split(s, pos, k0, f0);
    lemma_str_at(s, pos + k0.len(), current);
    lemma_byte_list_at(s, pos + (k0 + f0 + k1).len(), data);
    lemma_str_at(s, pos + (k0 + f0 + k1 + f1 + k2).len(), path);
    lemma_str_at(s, pos + (k0 + f0 + k1 + f1 + k2 + f2 + k3).len(), previous);
    lemma_int_at(s, pos + (k0 + f0 + k1 + f1 + k2 + f2 + k3 + f3 + k4).len(), timestamp);
}

/// What is read as the notice of a file update at `pos` is the wire form of
/// what was read.
#[verifier::rlimit(40)]
pub proof fn lemma_file_update_at_sound(s: Seq<u8>, pos: int)
    requires
        file_update_at(s, pos) is Some,
    ensures
        ({
            let (v, end) = file_update_at(s, pos).unwrap();
            starts(s, pos, enc_message(v)) && end == pos + enc_message(v).len()
        }),
{
    let k0 = lit("d10:FileUpdated7:current");
    let r0 = str_at(s, pos + k0.len()).unwrap();
    let f0 = enc_str(r0.0);
    let k1 = lit("4:data");
    let r1 = byte_list_at(s, r0.1 + k1.len()).unwrap();
    let f1 = enc_byte_list(r1.0);
    let k2 = lit("4:path");
    let r2 = str_at(s, r1.1 + k2.len()).unwrap();
    let f2 = enc_str(r2.0);
    let k3 = lit("8:previous");
    let r3 = str_at(s, r2.1 + k3.len()).unwrap();
    let f3 = enc_str(r3.0);
    let k4 = lit("9:timestamp");
    let r4 = int_at(s, r3.1 + k4.len()).unwrap();
    let f4 = enc_int(r4.0 as int);
    let k5 = lit("ee");
    lemma_starts_join(s, pos, k0, f0);
    lemma_starts_join(s, pos, k0 + f0, k1);
    lemma_starts_join(s, pos, k0 + f0 + k1, f1);
    lemma_starts_join(s, pos, k0 + f0 + k1 + f1, k2);
    lemma_starts_join(s, pos, k0 + f0 + k1 + f1 + k2, f2);
    lemma_starts_join(s, pos, k0 + f0 + k1 + f1 + k2 + f2, k3);
    lemma_starts_join(s, pos, k0 + f0 + k1 + f1 + k2 + f2 + k3, f3);
    lemma_starts_join(s, pos, k0 + f0 + k1 + f1 + k2 + f2 + k3 + f3, k4);
    lemma_starts_join(s, pos, k0 + f0 + k1 + f1 + k2 + f2 + k3 + f3 + k4, f4);
    lemma_starts_join(s, pos, k0 + f0 + k1 + f1 + k2 + f2 + k3 + f3 + k4 + f4, k5);
}

/// Reads the notice of a file update whose wire form stands at `pos`.
pub fn parse_file_update(buf: &[u8], pos: usize) -> (r: Option<(Messages, usize)>)
    requires
        pos <= buf.len(),
    ensures
        match r {
            Some((v, end)) => file_update_at(buf@, pos as int) == Some((v@, end as int)),
            None => file_update_at(buf@, pos as int) is None,
        },
{
    let q0 = expect_lit(buf, pos, "d10:FileUpdated7:current".as_bytes())?;
    let (current, p1) = parse_str(buf, q0)?;
    let q1 = expect_lit(buf, p1, "4:data".as_bytes())?;
    let (data, p2) = parse_byte_list(buf, q1)?;
    let q2 = expect_lit(buf, p2, "4:path".as_bytes())?;
    let (path, p3) = parse_str(buf, q2)?;
    let q3 = expect_lit(buf, p3, "8:previous".as_bytes())?;
    let (previous, p4) = parse_str(buf, q3)?;
    let q4 = expect_lit(buf, p4, "9:timestamp".as_bytes())?;
    let (timestamp, p5) = parse_int(buf, q4)?;
    let q5 = expect_lit(buf, p5, "ee".as_bytes())?;
    Some((Messages::FileUpdate { current, data, path, previous, timestamp }, q5))
}

/// Appends the wire form of the notice of a file update.
pub fn push_file_update(
    out: &mut Vec<u8>,
    current: &String,
    data: &Vec<u8>,
    path: &String,
    previous: &String,
    timestamp: i64,
)
    ensures
        final(out)@ == old(out)@ + enc_file_update(current@, data@, path@, previous@, timestamp),
{
    push_lit(out, "d10:FileUpdated7:current".as_bytes());
    push_str(out, current.as_str());
    push_lit(out, "4:data".as_bytes());
    push_byte_list(out, data.as_slice());
    push_lit(out, "4:path".as_bytes());
    push_str(out, path.as_str());
    push_lit(out, "8:previous".as_bytes());
    push_str(out, previous.as_str());
    push_lit(out, "9:timestamp".as_bytes());
    push_int(out, timestamp);
    push_lit(out, "ee".as_bytes());
    proof {
        assert(final(out)@ =~= old(out)@ + enc_file_update(
            current@,
            data@,
            path@,
            previous@,
            timestamp,
        ));
    }
}

/// The change notice whose wire form stands at `pos`, with the position after
/// it.
pub open spec fn message_at(s: Seq<u8>, pos: int) -> Option<(MessageView, int)> {
    if pushed_at(s, pos) is Some {
        pushed_at(s, pos)
    } else if added_at(s, pos) is Some {
        added_at(s, pos)
    } else if changed_at(s, pos) is Some {
        changed_at(s, pos)
    } else if removed_at(s, pos) is Some {
        removed_at(s, pos)
    } else if file_check_at(s, pos) is Some {
        file_check_at(s, pos)
    } else {
        file_update_at(s, pos)
    }
}

/// The second and the fourth byte of a wire form tell which variant it is of.
proof fn lemma_message_tags(s: Seq<u8>, pos: int)
    ensures
        starts(s, pos, lit("d6:Pushedd4:path")) ==> s[pos + 1] == 54 && s[pos + 3] == 80,
        starts(s, pos, lit("d5:Addedd4:path")) ==> s[pos + 1] == 53 && s[pos + 3] == 65,
        starts(s, pos, lit("d7:Changedd5:patch")) ==> s[pos + 1] == 55 && s[pos + 3] == 67,
        starts(s, pos, lit("d7:Removedd4:path")) ==> s[pos + 1] == 55 && s[pos + 3] == 82,
        starts(s, pos, lit("d9:FileCheckd8:filepath")) ==> s[pos + 1] == 57 && s[pos + 3] == 70,
        starts(s, pos, lit("d10:FileUpdated7:current")) ==> s[pos + 1] == 49 && s[pos + 3] == 58,
{
    reveal_strlit("d6:Pushedd4:path");
    reveal_strlit("d5:Addedd4:path");
    reveal_strlit("d7:Changedd5:patch");
    reveal_strlit("d7:Removedd4:path");
    reveal_strlit("d9:FileCheckd8:filepath");
    reveal_strlit("d10:FileUpdated7:current");
    is_ascii_chars_encode_utf8("d6:Pushedd4:path"@);
    is_ascii_chars_encode_utf8("d5:Addedd4:path"@);
    is_ascii_chars_encode_utf8("d7:Changedd5:patch"@);
    is_ascii_chars_encode_utf8("d7:Removedd4:path"@);
    is_ascii_chars_encode_utf8("d9:FileCheckd8:filepath"@);
    is_ascii_chars_encode_utf8("d10:FileUpdated7:current"@);
    lemma_tag_bytes(s, pos, lit("d6:Pushedd4:path"));
    lemma_tag_bytes(s, pos, lit("d5:Addedd4:path"));
    lemma_tag_bytes(s, pos, lit("d7:Changedd5:patch"));
    lemma_tag_bytes(s, pos, lit("d7:Removedd4:path"));
    lemma_tag_bytes(s, pos, lit("d9:FileCheckd8:filepath"));
    lemma_tag_bytes(s, pos, lit("d10:FileUpdated7:current"));
}

proof fn lemma_tag_bytes(s: Seq<u8>, pos: int, t: Seq<u8>)
    requires
        t.len() >= 4,
    ensures
        starts(s, pos, t) ==> s[pos + 1] == t[1] && s[pos + 3] == t[3],
{
    if starts(s, pos, t) {
        let w = s.subrange(pos, pos + t.len());
        assert(w[1] == s[pos + 1]);
        assert(w[3] == s[pos + 3]);
    }
}

/// Where the wire form of a change notice stands, the notice is read back.
pub proof fn lemma_message_at(s: Seq<u8>, pos: int, m: MessageView)
    requires
        starts(s, pos, enc_message(m)),
    ensures
        message_at(s, pos) == Some((m, pos + enc_message(m).len())),
{
    lemma_message_tags(s, pos);
    let e = Seq::<u8>::empty();
    match m {
        MessageView::Pushed { path, peerid } => {
            lemma_pushed_at(s, pos, path, peerid);
        },
        MessageView::Added { path, peerid } => {
            lemma_added_at(s, pos, path, peerid);
        },
        MessageView::Changed { path, patch, peerid } => {
            lemma_changed_at(s, pos, patch, path, peerid);
        },
        MessageView::Removed { path, peerid } => {
            lemma_removed_at(s, pos, path, peerid);
        },
        MessageView::FileCheck { filepath, timestamp } => {
            lemma_file_check_at(s, pos, filepath, timestamp);
        },
        MessageView::FileUpdate { path, current, previous, timestamp, data } => {
            lemma_file_update_at(s, pos, current, data, path, previous, timestamp);
        },
    }
}

/// What is read as a change notice at `pos` is the wire form of what was read.
pub proof fn lemma_message_at_sound(s: Seq<u8>, pos: int)
    requires
        message_at(s, pos) is Some,
    ensures
        message_at(s, pos) matches Some((v, end)) && starts(s, pos, enc_message(v)) && end == pos
            + enc_message(v).len(),
{
    if pushed_at(s, pos) is Some {
        lemma_pushed_at_sound(s, pos);
    } else if added_at(s, pos) is Some {
        lemma_added_at_sound(s, pos);
    } else if changed_at(s, pos) is Some {
        lemma_changed_at_sound(s, pos);
    } else if removed_at(s, pos) is Some {
        lemma_removed_at_sound(s, pos);
    } else if file_check_at(s, pos) is Some {
        lemma_file_check_at_sound(s, pos);
    } else {
        lemma_file_update_at_sound(s, pos);
    }
}

/// Appends the wire form of a change notice.
pub fn push_message(out: &mut Vec<u8>, v: &Messages)
    ensures
        final(out)@ == old(out)@ + enc_message(v@),
{
    match v {
        Messages::Pushed { path, peerid } => {
            push_pushed(out, path, peerid);
        },
        Messages::Added { path, peerid } => {
            push_added(out, path, peerid);
        },
        Messages::Changed { patch, path, peerid } => {
            push_changed(out, patch, path, peerid);
        },
        Messages::Removed { path, peerid } => {
            push_removed(out, path, peerid);
        },
        Messages::FileCheck { filepath, timestamp } => {
            push_file_check(out, filepath, *timestamp);
        },
        Messages::FileUpdate { current, data, path, previous, timestamp } => {
            push_file_update(out, current, data, path, previous, *timestamp);
        },
    }
    proof {
        assert(final(out)@ =~= old(out)@ + enc_message(v@));
    }
}

/// Reads the change notice whose wire form stands at `pos`.
pub fn parse_message(buf: &[u8], pos: usize) -> (r: Option<(Messages, usize)>)
    requires
        pos <= buf.len(),
    ensures
        match r {
            Some((v, end)) => message_at(buf@, pos as int) == Some((v@, end as int)),
            None => message_at(buf@, pos as int) is None,
        },
{
    let r = parse_pushed(buf, pos);
    if r.is_some() {
        return r;
    }
    let r = parse_added(buf, pos);
    if r.is_some() {
        return r;
    }
    let r = parse_changed(buf, pos);
    if r.is_some() {
        return r;
    }
    let r = parse_removed(buf, pos);
    if r.is_some() {
        return r;
    }
    let r = parse_file_check(buf, pos);
    if r.is_some() {
        return r;
    }
    parse_file_update(buf, pos)
}

/// The wire form of a change notice.
pub fn to_bytes(msg: Messages) -> (res: Vec<u8>)
    ensures
        res@ == enc_message(msg@),
{
    let mut out: Vec<u8> = Vec::new();
    push_message(&mut out, &msg);
    proof {
        assert(out@ =~= enc_message(msg@));
    }
    out
}

/// The change notice that `msg` is the wire form of, if it is that of any.
/// Bytes that are the wire form of no notice give nothing.
pub fn from_bytes(msg: Vec<u8>) -> (res: Option<Messages>)
    ensures
        match res {
            Some(e) => msg@ == enc_message(e@) && decode_message(msg@) == Some(e@),
            None => (forall|m: MessageView| msg@ != enc_message(m)) && decode_message(msg@) is None,
        },
{
    let ghost s = msg@;
    let parsed = parse_message(msg.as_slice(), 0);
    proof {
        assert(s.subrange(0, s.len() as int) =~= s);
        assert forall|m: MessageView| s == enc_message(m) implies message_at(s, 0) == Some(
            (m, s.len() as int),
        ) by {
            lemma_message_at(s, 0, m);
        }
        if message_at(s, 0) is Some {
            lemma_message_at_sound(s, 0);
        }
    }
    match parsed {
        None => None,
        Some((v, end)) => {
            if end != msg.len() {
                return None;
            }
            proof {
                lemma_decode_message(v@);
            }
            Some(v)
        },
    }
}

/// Two change notices with one wire form are the same notice.
pub proof fn lemma_enc_message_injective(a: MessageView, b: MessageView)
    requires
        enc_message(a) == enc_message(b),
    ensures
        a == b,
{
    let s = enc_message(a);
    assert(s.subrange(0, s.len() as int) =~= s);
    lemma_message_at(s, 0, a);
    lemma_message_at(s, 0, b);
}

/// The notice that `b` is the wire form of, if it is that of any.
pub open spec fn decode_message(b: Seq<u8>) -> Option<MessageView> {
    if exists|m: MessageView| b == enc_message(m) {
        Some(choose|m: MessageView| b == enc_message(m))
    } else {
        None
    }
}

/// Round trip: the wire form of a change notice is read back as the same notice,
/// whatever its fields hold.
pub proof fn lemma_decode_message(m: MessageView)
    ensures
        decode_message(enc_message(m)) == Some(m),
{
    let c = choose|c: MessageView| enc_message(m) == enc_message(c);
    lemma_enc_message_injective(m, c);
}

/// The notice that the self-check sends through the codec.
pub open spec fn sample() -> MessageView {
    MessageView::Added { path: "org"@, peerid: seq![0u8, 1u8, 2u8, 3u8] }
}

/// A self-check of the codec: writes a sample notice, reads the bytes back,
/// and gives what was read, which is the sample.
pub fn test() -> (res: Messages)
    ensures
        res@ == sample(),
{
    let mut peerid: Vec<u8> = Vec::new();
    peerid.push(0);
    peerid.push(1);
    peerid.push(2);
    peerid.push(3);
    proof {
        assert(peerid@ =~= seq![0u8, 1u8, 2u8, 3u8]);
    }
    let test = Messages::Added { path: "org".to_owned(), peerid };
    let ghost m = test@;
    let bencode = to_bytes(test);
    match from_bytes(bencode) {
        Some(comm) => {
            proof {
                lemma_enc_message_injective(comm@, m);
            }
            comm
        },
        None => {
            proof {
                assert(enc_message(m) != enc_message(m));
            }
            vstd::pervasive::unreached()
        },
    }
}

} // verus!
