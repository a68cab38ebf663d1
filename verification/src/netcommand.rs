//! Commands: what the operator asks of a running node, and what the parts of
//! a node ask of its engine.

use crate::bencode::{
    enc_opt_str, expect_lit, lemma_opt_str_at, lemma_starts_join, lemma_starts_split, lit,
    opt_str_at, opt_view, parse_opt_str, push_lit, push_opt_str, starts,
};
use vstd::prelude::*;
use vstd::string::*;

verus! {

/// A request to the engine, as plain values. Peers are named by the bytes of
/// their identity, addresses and paths by their text.
#[derive(Debug, Clone)]
pub enum Command {
    StartListening { addr: String },
    Dial { peer_id: Vec<u8>, peer_addr: String },
    StartProviding { file_name: String },
    GetProviders { file_name: String },
    RequestFile { file_name: String, peer: Vec<u8> },
    RespondFile { file: Vec<u8> },
    EditFileChange { path: String },
    EditFileAdd { path: String },
    EditFileDelete { path: String },
    /// A peer has joined: run the reconciliation sweep.
    NewPeer,
}

/// The operator's one command: push the record of the path that is named,
/// or, where no path is named, of every tracked file.
#[allow(non_snake_case)]
#[derive(PartialEq, Debug)]
pub struct CliCommand {
    pub Push: Option<String>,
}

/// What an operator command holds, as a mathematical value.
pub struct CliCommandView {
    pub push: Option<Seq<char>>,
}

impl View for CliCommand {
    type V = CliCommandView;

    open spec fn view(&self) -> CliCommandView {
        CliCommandView { push: opt_view(self.Push) }
    }
}

/// The wire form of an operator command: a dictionary with the one key
/// `Push`, whose value is the empty list where no path is named and the
/// list of the one path where one is.
pub open spec fn enc_cli_command(push: Option<Seq<char>>) -> Seq<u8> {
    lit("d4:Push") + enc_opt_str(push) + lit("e")
}

/// The operator command whose wire form stands at `pos`, with the position
/// after it.
pub open spec fn cli_command_at(s: Seq<u8>, pos: int) -> Option<(CliCommandView, int)> {
    let r0 = opt_str_at(s, pos + lit("d4:Push").len());
    if starts(s, pos, lit("d4:Push"))
        && r0 is Some
        && starts(s, r0.unwrap().1, lit("e"))
    {
        Some((CliCommandView { push: r0.unwrap().0 }, r0.unwrap().1 + lit("e").len()))
    } else {
        None
    }
}

/// Where the wire form of an operator command stands, the operator command is
/// read back.
pub proof fn lemma_cli_command_at(s: Seq<u8>, pos: int, push: Option<Seq<char>>)
    requires
        starts(s, pos, enc_cli_command(push)),
    ensures
        cli_command_at(s, pos) == Some(
            (CliCommandView { push: push }, pos + enc_cli_command(push).len()),
        ),
{
    let k0 = lit("d4:Push");
    let f0 = enc_opt_str(push);
    let k1 = lit("e");
    lemma_starts_split(s, pos, k0 + f0, k1);
    lemma_starts_split(s, pos, k0, f0);
    lemma_opt_str_at(s, pos + k0.len(), push);
}

/// What is read as an operator command at `pos` is the wire form of what was
/// read.
pub proof fn lemma_cli_command_at_sound(s: Seq<u8>, pos: int)
    requires
        cli_command_at(s, pos) is Some,
    ensures
        ({
            let (v, end) = cli_command_at(s, pos).unwrap();
            starts(s, pos, enc_cli_command(v.push)) && end == pos + enc_cli_command(v.push).len()
        }),
{
    let k0 = lit("d4:Push");
    let r0 = opt_str_at(s, pos + k0.len()).unwrap();
    let f0 = enc_opt_str(r0.0);
    let k1 = lit("e");
    lemma_starts_join(s, pos, k0, f0);
    lemma_starts_join(s, pos, k0 + f0, k1);
}

/// Reads the operator command whose wire form stands at `pos`.
pub fn parse_cli_command(buf: &[u8], pos: usize) -> (r: Option<(CliCommand, usize)>)
    requires
        pos <= buf.len(),
    ensures
        match r {
            Some((v, end)) => cli_command_at(buf@, pos as int) == Some((v@, end as int)),
            None => cli_command_at(buf@, pos as int) is None,
        },
{
    let q0 = expect_lit(buf, pos, "d4:Push".as_bytes())?;
    let (push, p1) = parse_opt_str(buf, q0)?;
    let q1 = expect_lit(buf, p1, "e".as_bytes())?;
    Some((CliCommand { Push: push }, q1))
}

/// Appends the wire form of an operator command.
pub fn push_cli_command(out: &mut Vec<u8>, v: &CliCommand)
    ensures
        final(out)@ == old(out)@ + enc_cli_command(opt_view(v.Push)),
{
    push_lit(out, "d4:Push".as_bytes());
    push_opt_str(out, &v.Push);
    push_lit(out, "e".as_bytes());
    proof {
        assert(final(out)@ =~= old(out)@ + enc_cli_command(opt_view(v.Push)));
    }
}

/// Two operator commands with one wire form are the same.
pub proof fn lemma_enc_cli_command_injective(a: CliCommandView, b: CliCommandView)
    requires
        enc_cli_command(a.push) == enc_cli_command(b.push),
    ensures
        a == b,
{
    let s = enc_cli_command(a.push);
    assert(s.subrange(0, s.len() as int) =~= s);
    lemma_cli_command_at(s, 0, a.push);
    lemma_cli_command_at(s, 0, b.push);
}

/// The command that `b` is the wire form of, if it is that of any.
pub open spec fn decode_cli_command(b: Seq<u8>) -> Option<CliCommandView> {
    if exists|m: CliCommandView| b == enc_cli_command(m.push) {
        Some(choose|m: CliCommandView| b == enc_cli_command(m.push))
    } else {
        None
    }
}

/// Round trip: the wire form of an operator command is read back as the same command,
/// whatever its fields hold.
pub proof fn lemma_decode_cli_command(m: CliCommandView)
    ensures
        decode_cli_command(enc_cli_command(m.push)) == Some(m),
{
    let c = choose|c: CliCommandView| enc_cli_command(m.push) == enc_cli_command(c.push);
    lemma_enc_cli_command_injective(m, c);
}

/// A push that names no path and a push that names a path are different
/// commands with different wire forms, whatever the path is.
pub proof fn lemma_no_path_is_no_name(path: Seq<char>)
    ensures
        enc_cli_command(None) != enc_cli_command(Some(path)),
        decode_cli_command(enc_cli_command(None)) == Some(CliCommandView { push: None }),
        decode_cli_command(enc_cli_command(Some(path))) == Some(
            CliCommandView { push: Some(path) },
        ),
{
    let a = CliCommandView { push: None };
    let b = CliCommandView { push: Some(path) };
    if enc_cli_command(None) == enc_cli_command(Some(path)) {
        lemma_enc_cli_command_injective(a, b);
    }
    lemma_decode_cli_command(a);
    lemma_decode_cli_command(b);
}

/// The wire form of a command is never empty.
pub proof fn lemma_cli_command_not_empty(m: CliCommandView)
    ensures
        enc_cli_command(m.push).len() > 0,
{
    let e = enc_opt_str(m.push);
    assert(e.len() >= 2);
}

impl CliCommand {
    /// The wire form of the command.
    pub fn to_bytes(&self) -> (res: Vec<u8>)
        ensures
            res@ == enc_cli_command(opt_view(self.Push)),
    {
        let mut out: Vec<u8> = Vec::new();
        push_cli_command(&mut out, self);
        proof {
            assert(out@ =~= enc_cli_command(opt_view(self.Push)));
        }
        out
    }

    /// The command that `bytes` is the wire form of, if it is that of any.
    pub fn from_bytes(bytes: Vec<u8>) -> (res: Option<Self>)
        ensures
            match res {
                Some(e) => bytes@ == enc_cli_command(opt_view(e.Push))
                    && decode_cli_command(bytes@) == Some(e@),
                None => (forall|m: CliCommandView| bytes@ != enc_cli_command(m.push))
                    && decode_cli_command(bytes@) is None,
            },
    {
        let ghost s = bytes@;
        let parsed = parse_cli_command(bytes.as_slice(), 0);
        proof {
            assert(s.subrange(0, s.len() as int) =~= s);
            assert forall|m: CliCommandView| s == enc_cli_command(m.push)
                implies cli_command_at(s, 0) == Some(
                (m, s.len() as int),
            ) by {
                lemma_cli_command_at(s, 0, m.push);
            }
            if cli_command_at(s, 0) is Some {
                lemma_cli_command_at_sound(s, 0);
            }
        }
        match parsed {
            None => None,
            Some((v, end)) => {
                if end != bytes.len() {
                    return None;
                }
                proof {
                    lemma_decode_cli_command(v@);
                }
                Some(v)
            },
        }
    }
}

} // verus!
