//! Command building and the pipelining discipline: several commands are
//! written before any reply is read, and exactly one reply is then expected
//! per command, in send order.

use vstd::prelude::*;

use crate::transparency::CR;
use crate::transparency::LF;
use vstd::string::StringSliceAdditionalSpecFns;

verus! {

/// The byte 'E'.
pub const UPPER_E: u8 = 69;
/// The byte 'H'.
pub const UPPER_H: u8 = 72;
/// The byte 'L'.
pub const UPPER_L: u8 = 76;
/// The byte 'O'.
pub const UPPER_O: u8 = 79;
/// The byte ' '.
pub const SPACE: u8 = 32;

/// The greeting command for the configured protocol mode: "EHLO " or "LHLO ",
/// then the local identity, then CRLF.
pub open spec fn hello_command_spec(is_lmtp: bool, host: Seq<u8>) -> Seq<u8> {
    (if is_lmtp {
        seq![UPPER_L, UPPER_H, UPPER_L, UPPER_O, SPACE]
    } else {
        seq![UPPER_E, UPPER_H, UPPER_L, UPPER_O, SPACE]
    }) + host + seq![CR, LF]
}

/// Append the bytes of `src` to `out`.
fn append_bytes(out: &mut Vec<u8>, src: &[u8])
    ensures
        final(out)@ == old(out)@ + src@,
{
    let mut j: usize = 0;
    while j < src.len()
        invariant
            j <= src@.len(),
            out@ == old(out)@ + src@.take(j as int),
        decreases src@.len() - j,
    {
        out.push(src[j]);
        proof {
            assert(old(out)@ + src@.take(j + 1) =~= (old(out)@ + src@.take(j as int)).push(
                src@[j as int],
            ));
        }
        j = j + 1;
    }
    proof {
        assert(old(out)@ + src@.take(src@.len() as int) =~= old(out)@ + src@);
    }
}

/// Build the greeting command line for the chosen protocol mode and local
/// identity.
pub fn hello_command(is_lmtp: bool, local_host: &str) -> (cmd: Vec<u8>)
    ensures
        cmd@ == hello_command_spec(is_lmtp, local_host.spec_bytes()),
{
    let mut cmd: Vec<u8> = Vec::new();
    if is_lmtp {
        cmd.push(UPPER_L);
    } else {
        cmd.push(UPPER_E);
    }
    cmd.push(UPPER_H);
    cmd.push(UPPER_L);
    cmd.push(UPPER_O);
    cmd.push(SPACE);
    append_bytes(&mut cmd, local_host.as_bytes());
    cmd.push(CR);
    cmd.push(LF);
    proof {
        assert(cmd@ =~= hello_command_spec(is_lmtp, local_host.spec_bytes()));
    }
    cmd
}

/// The concatenation of a batch of command lines.
pub open spec fn concat_all(cmds: Seq<Seq<u8>>) -> Seq<u8>
    decreases cmds.len(),
{
    if cmds.len() == 0 {
        Seq::empty()
    } else {
        cmds[0] + concat_all(cmds.skip(1))
    }
}

/// Lay out a batch of already-encoded command lines as the single byte run
/// that is written before any reply is read, together with the number of
/// replies then owed: exactly one per command, in send order.
pub fn batch_payload(cmds: &Vec<Vec<u8>>) -> (r: (Vec<u8>, usize))
    ensures
        r.1 == cmds@.len(),
        r.0@ == concat_all(cmds@.map_values(|c: Vec<u8>| c@)),
{
    let ghost views = cmds@.map_values(|c: Vec<u8>| c@);
    let mut out: Vec<u8> = Vec::new();
    let mut i: usize = 0;
    proof {
        assert(views.skip(0) =~= views);
        assert(out@ + concat_all(views) =~= concat_all(views));
    }
    while i < cmds.len()
        invariant
            i <= cmds@.len(),
            views == cmds@.map_values(|c: Vec<u8>| c@),
            out@ + concat_all(views.skip(i as int)) == concat_all(views),
        decreases cmds@.len() - i,
    {
        let ghost out0 = out@;
        let ghost t = views.skip(i as int);
        append_bytes(&mut out, cmds[i].as_slice());
        proof {
            assert(t[0] == views[i as int]);
            assert(views[i as int] == cmds@[i as int]@);
            assert(concat_all(t) == t[0] + concat_all(t.skip(1)));
            assert(t.skip(1) =~= views.skip(i + 1));
            assert(out@ + concat_all(views.skip(i + 1)) =~= out0 + concat_all(t));
        }
        i = i + 1;
    }
    proof {
        assert(views.skip(i as int) =~= Seq::<Seq<u8>>::empty());
        assert(out@ + concat_all(views.skip(i as int)) =~= out@);
    }
    (out, cmds.len())
}

} // verus!
