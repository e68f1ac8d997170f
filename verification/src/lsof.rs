//! Which open descriptors the lsof tool lists, and the user names it
//! matches them against.

use crate::args::{LsofArgs, LsofFilters};
use crate::display::{bytes_to_str, field_text};
use crate::procs::{comm_text, proc_comm};
use crate::text::{
    has_infix, has_prefix, is_infix, lines, occurs_at, parse_u32, parse_unsigned, same_bytes,
    split_lines,
};
use crate::types::{FdInfo, ProcStats};
use std::collections::HashMap;
use vstd::prelude::*;
use vstd::slice::slice_to_vec;
use vstd::std_specs::hash::group_hash_axioms;
use vstd::string::StringSliceAdditionalSpecFns;
use vstd::utf8::encode_utf8;

verus! {

/// The byte offset of the first `:` in `s`, or its length when it has none.
pub open spec fn colon_pos(s: Seq<u8>) -> nat
    decreases s.len(),
{
    if s.len() == 0 || s[0] == 58 {
        0
    } else {
        1 + colon_pos(s.drop_first())
    }
}

proof fn lemma_colon_pos_bound(s: Seq<u8>)
    ensures
        colon_pos(s) <= s.len(),
    decreases s.len(),
{
    if s.len() > 0 && s[0] != 58 {
        lemma_colon_pos_bound(s.drop_first());
    }
}

/// Field `k` of a line split at `:` (`str::split(':')`), if the line has that
/// many fields.
pub open spec fn colon_field(s: Seq<u8>, k: nat) -> Option<Seq<u8>>
    decreases k,
{
    if k == 0 {
        Some(s.take(colon_pos(s) as int))
    } else if colon_pos(s) < s.len() {
        colon_field(s.skip(colon_pos(s) + 1int), (k - 1) as nat)
    } else {
        None
    }
}

/// The UID of a password-database line: its third field, as a number.
pub open spec fn entry_uid(l: Seq<u8>) -> Option<nat> {
    match colon_field(l, 2) {
        Some(t) => parse_unsigned(t, u32::MAX as nat),
        None => None,
    }
}

/// The user name of `uid` in the password-database lines `ls`: the first
/// field of the first line whose UID is `uid`, or "?" when there is none.
pub open spec fn passwd_lookup(ls: Seq<Seq<u8>>, uid: u32) -> Seq<u8>
    decreases ls.len(),
{
    if ls.len() == 0 {
        seq![63u8]
    } else if entry_uid(ls[0]) == Some(uid as nat) {
        ls[0].take(colon_pos(ls[0]) as int)
    } else {
        passwd_lookup(ls.drop_first(), uid)
    }
}

/// The offset of the first `:` at or after `start`, or the length.
fn colon_from(b: &[u8], start: usize) -> (r: usize)
    requires
        start <= b@.len(),
    ensures
        r == start + colon_pos(b@.skip(start as int)),
        r <= b@.len(),
{
    let n = b.len();
    let mut end = start;
    while end < n && b[end] != 58
        invariant
            n == b@.len(),
            start <= end <= n,
            colon_pos(b@.skip(start as int)) == (end - start) + colon_pos(b@.skip(end as int)),
        decreases n - end,
    {
        assert(b@.skip(end as int).drop_first() =~= b@.skip(end + 1));
        end = end + 1;
    }
    proof {
        lemma_colon_pos_bound(b@.skip(start as int));
    }
    end
}

/// The UID of one password-database line.
fn line_uid(line: &[u8]) -> (r: Option<u32>)
    ensures
        match r {
            Some(v) => entry_uid(line@) == Some(v as nat),
            None => entry_uid(line@) is None,
        },
{
    let n = line.len();
    let p0 = colon_from(line, 0);
    let ghost s0 = line@;
    assert(s0.skip(0) =~= s0);
    if p0 >= n {
        return None;
    }
    let p1 = colon_from(line, p0 + 1);
    let ghost s1 = s0.skip(p0 + 1);
    if p1 >= n {
        assert(colon_field(s0, 2) == colon_field(s1, 1));
        return None;
    }
    let p2 = colon_from(line, p1 + 1);
    proof {
        let s2 = s1.skip(colon_pos(s1) + 1int);
        assert(s2 =~= s0.skip(p1 + 1));
        assert(colon_field(s0, 2) == colon_field(s1, 1));
        assert(colon_field(s1, 1) == colon_field(s2, 0));
        assert(s2.take(colon_pos(s2) as int) =~= s0.subrange(p1 + 1, p2 as int));
    }
    let t = &line[p1 + 1..p2];
    assert(t@ =~= s0.subrange(p1 + 1, p2 as int));
    parse_u32(t)
}

/// The user name of `uid` in the text of the password database (the first
/// field of its line), or "?" when no line has that UID.
pub fn uid_to_name(passwd: &str, uid: u32) -> (r: Vec<u8>)
    ensures
        r@ == passwd_lookup(lines(passwd.spec_bytes()), uid),
{
    let ls = split_lines(passwd.as_bytes());
    let ghost all = lines(passwd.spec_bytes());
    let mut k: usize = 0;
    assert(all.skip(0) =~= all);
    while k < ls.len()
        invariant
            all == lines(passwd.spec_bytes()),
            ls.deep_view() == all,
            k <= ls@.len(),
            passwd_lookup(all, uid) == passwd_lookup(all.skip(k as int), uid),
        decreases ls@.len() - k,
    {
        let line = ls[k].as_slice();
        assert(line@ == all[k as int]);
        assert(all.skip(k as int)[0] == all[k as int]);
        assert(all.skip(k as int).drop_first() =~= all.skip(k + 1));
        match line_uid(line) {
            Some(v) => if v == uid {
                let end = colon_from(line, 0);
                assert(line@.skip(0) =~= line@);
                let name = slice_to_vec(&line[0..end]);
                assert(name@ =~= line@.take(end as int));
                assert(entry_uid(all.skip(k as int)[0]) == Some(uid as nat));
                assert(passwd_lookup(all.skip(k as int), uid) == all[k as int].take(
                    colon_pos(all[k as int]) as int,
                ));
                return name;
            },
            None => {},
        }
        k = k + 1;
    }
    assert(all.skip(k as int) =~= Seq::<Seq<u8>>::empty());
    vec![63u8]
}

/// Whether the lsof filters keep a descriptor: every filter that is set
/// matches. `procs` maps PIDs to processes, `passwd` is the text of the
/// password database.
pub open spec fn lsof_keeps(
    f: LsofFilters,
    fd: FdInfo,
    procs: Map<u32, ProcStats>,
    passwd: Seq<char>,
) -> bool {
    let path = encode_utf8(field_text(fd.path@));
    &&& (f.pid matches Some(p) ==> fd.pid == p)
    &&& (f.command matches Some(c) ==> is_infix(encode_utf8(c), encode_utf8(comm_text(procs, fd.pid))))
    &&& (f.user matches Some(u) ==> procs.contains_key(fd.pid) && (parse_unsigned(
        encode_utf8(u),
        u32::MAX as nat,
    ) == Some(procs[fd.pid].uid as nat) || passwd_lookup(lines(encode_utf8(passwd)), procs[fd.pid].uid)
        == encode_utf8(u)))
    &&& (f.path matches Some(p) ==> is_infix(encode_utf8(p), path))
    &&& (f.dir matches Some(d) ==> encode_utf8(d).is_prefix_of(path))
}

/// The bytes of a descriptor's path, as the filters see it.
pub open spec fn fd_path_bytes(fd: FdInfo) -> Seq<u8> {
    encode_utf8(field_text(fd.path@))
}

/// Every filter that is set holds of a kept descriptor: it belongs to the
/// chosen PID; its process's command contains the chosen text; its path
/// contains the chosen text somewhere; and its path begins with the chosen
/// directory (a path that holds the directory text only further in is not
/// kept).
pub proof fn law_kept_descriptors_match_filters(
    f: LsofFilters,
    fd: FdInfo,
    procs: Map<u32, ProcStats>,
    passwd: Seq<char>,
)
    requires
        lsof_keeps(f, fd, procs, passwd),
    ensures
        f.pid matches Some(p) ==> fd.pid == p,
        f.command matches Some(c) ==> exists|k: int|
            0 <= k && k + encode_utf8(c).len() <= encode_utf8(comm_text(procs, fd.pid)).len()
                && #[trigger] encode_utf8(comm_text(procs, fd.pid)).subrange(
                k,
                k + encode_utf8(c).len(),
            ) == encode_utf8(c),
        f.path matches Some(p) ==> exists|k: int|
            0 <= k && k + encode_utf8(p).len() <= fd_path_bytes(fd).len()
                && #[trigger] fd_path_bytes(fd).subrange(k, k + encode_utf8(p).len())
                == encode_utf8(p),
        f.dir matches Some(d) ==> {
            &&& encode_utf8(d).len() <= fd_path_bytes(fd).len()
            &&& fd_path_bytes(fd).subrange(0, encode_utf8(d).len() as int) == encode_utf8(d)
        },
        f.user is Some ==> procs.contains_key(fd.pid),
{
    if let Some(c) = f.command {
        let k = choose|k: int| occurs_at(encode_utf8(c), encode_utf8(comm_text(procs, fd.pid)), k);
        assert(encode_utf8(comm_text(procs, fd.pid)).subrange(k, k + encode_utf8(c).len())
            == encode_utf8(c));
    }
    if let Some(p) = f.path {
        let k = choose|k: int| occurs_at(encode_utf8(p), fd_path_bytes(fd), k);
        assert(fd_path_bytes(fd).subrange(k, k + encode_utf8(p).len()) == encode_utf8(p));
    }
    if let Some(d) = f.dir {
        assert(fd_path_bytes(fd).subrange(0, encode_utf8(d).len() as int) =~= encode_utf8(d));
    }
}

/// With only the directory filter set, a descriptor is kept exactly when its
/// path begins with the directory's text.
pub proof fn law_dir_filter_alone(
    f: LsofFilters,
    fd: FdInfo,
    procs: Map<u32, ProcStats>,
    passwd: Seq<char>,
)
    requires
        f.pid is None,
        f.command is None,
        f.user is None,
        f.path is None,
        f.dir is Some,
    ensures
        lsof_keeps(f, fd, procs, passwd) <==> {
            let d = encode_utf8(f.dir->0);
            &&& d.len() <= fd_path_bytes(fd).len()
            &&& fd_path_bytes(fd).subrange(0, d.len() as int) == d
        },
{
    let d = encode_utf8(f.dir->0);
    if d.len() <= fd_path_bytes(fd).len() && fd_path_bytes(fd).subrange(0, d.len() as int) == d {
        assert(d.is_prefix_of(fd_path_bytes(fd)));
    }
}

/// With no filter set, every descriptor is kept.
pub proof fn law_no_filter_keeps_all(
    f: LsofFilters,
    fd: FdInfo,
    procs: Map<u32, ProcStats>,
    passwd: Seq<char>,
)
    requires
        f.pid is None,
        f.command is None,
        f.user is None,
        f.path is None,
        f.dir is None,
    ensures
        lsof_keeps(f, fd, procs, passwd),
{
}

/// Whether the lsof filters keep the descriptor `fd`.
pub fn keeps_fd(
    args: &LsofArgs,
    fd: &FdInfo,
    procs: &HashMap<u32, ProcStats>,
    passwd: &str,
) -> (r: bool)
    ensures
        r == lsof_keeps(args@, *fd, procs@, passwd@),
{
    broadcast use group_hash_axioms;

    if let Some(pid) = args.pid {
        if fd.pid != pid {
            return false;
        }
    }
    if let Some(name) = &args.command {
        let comm = proc_comm(procs, fd.pid);
        if !has_infix(name.as_str().as_bytes(), comm.as_bytes()) {
            return false;
        }
    }
    if let Some(user) = &args.user {
        match procs.get(&fd.pid) {
            Some(ps) => {
                let uid_match = match parse_u32(user.as_str().as_bytes()) {
                    Some(u) => ps.uid == u,
                    None => false,
                };
                if !uid_match {
                    let uname = uid_to_name(passwd, ps.uid);
                    if !same_bytes(uname.as_slice(), user.as_str().as_bytes()) {
                        return false;
                    }
                }
            },
            None => {
                return false;
            },
        }
    }
    if let Some(p) = &args.path {
        let path = bytes_to_str(fd.path.as_slice());
        if !has_infix(p.as_str().as_bytes(), path.as_bytes()) {
            return false;
        }
    }
    if let Some(d) = &args.dir {
        let path = bytes_to_str(fd.path.as_slice());
        if !has_prefix(d.as_str().as_bytes(), path.as_bytes()) {
            return false;
        }
    }
    true
}

} // verus!
