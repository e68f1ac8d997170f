//! Where pinned maps live: the pin directory and the path of each map in it.

use crate::fsprobe::path_exists;
use vstd::prelude::*;
use vstd::string::StringExecFns;
use vstd::string::StrSliceExecFns;

verus! {

/// Default pin directory for procfast maps.
pub const DEFAULT_PIN_PATH: &'static str = "/sys/fs/bpf/procfast";

/// The path of `name` inside `dir` (`Path::join` on Unix): an absolute
/// `name` stands alone; otherwise a `/` separates the two unless `dir` is
/// empty or already ends with one.
pub open spec fn join_text(dir: Seq<char>, name: Seq<char>) -> Seq<char> {
    if name.len() > 0 && name[0] == '/' {
        name
    } else if dir.len() > 0 && dir.last() != '/' {
        dir + seq!['/'] + name
    } else {
        dir + name
    }
}

/// The path of a pinned map inside a pin directory.
pub fn map_path(pin_dir: &str, map_name: &str) -> (r: String)
    ensures
        r@ == join_text(pin_dir@, map_name@),
{
    let name_len = map_name.unicode_len();
    if name_len > 0 && map_name.get_char(0) == '/' {
        return String::from_str(map_name);
    }
    let dir_len = pin_dir.unicode_len();
    let slash = "/";
    proof {
        reveal_strlit("/");
    }
    let mut r = String::from_str(pin_dir);
    if dir_len > 0 && pin_dir.get_char(dir_len - 1) != '/' {
        r.append(slash);
    }
    r.append(map_name);
    r
}

/// The map whose presence shows that maps are pinned.
pub open spec fn probe_map_path(pin_path: Seq<char>) -> Seq<char> {
    join_text(pin_path, "cpu_data"@)
}

/// The probe looks exactly where the daemon pins the CPU map
/// (`{dir}/cpu_data`), for every pin directory that is not empty and does
/// not end with `/`.
pub proof fn law_probe_is_pinned_cpu_map(dir: Seq<char>)
    requires
        dir.len() > 0,
        dir.last() != '/',
    ensures
        probe_map_path(dir) == dir + seq!['/'] + "cpu_data"@,
{
    reveal_strlit("cpu_data");
}

/// `p` with every run of `/` cut down to one: two paths that agree after
/// this name the same file, as a repeated separator adds nothing.
pub open spec fn collapse_slashes(p: Seq<char>) -> Seq<char>
    decreases p.len(),
{
    if p.len() < 2 {
        p
    } else if p.last() == '/' && p[p.len() - 2] == '/' {
        collapse_slashes(p.drop_last())
    } else {
        collapse_slashes(p.drop_last()).push(p.last())
    }
}

/// After a directory that ends with `/`, one more `/` changes nothing once
/// repeated separators are collapsed.
proof fn lemma_extra_slash_collapses(dir: Seq<char>, rest: Seq<char>)
    requires
        dir.len() > 0,
        dir.last() == '/',
    ensures
        collapse_slashes(dir + seq!['/'] + rest) == collapse_slashes(dir + rest),
    decreases rest.len(),
{
    let p1 = dir + seq!['/'] + rest;
    let p2 = dir + rest;
    if rest.len() == 0 {
        assert(p1.drop_last() =~= dir);
        assert(p2 =~= dir);
    } else {
        let shorter = rest.drop_last();
        lemma_extra_slash_collapses(dir, shorter);
        assert(p1.drop_last() =~= dir + seq!['/'] + shorter);
        assert(p2.drop_last() =~= dir + shorter);
        assert(p1.last() == p2.last());
        assert(p1[p1.len() - 2] == p2[p2.len() - 2]);
    }
}

/// The path at which a client opens a map and the daemon pins it
/// (`{dir}/{name}`) names the same file as the joined path `map_path` gives,
/// for every pin directory that is not empty and every map name that does
/// not start with `/`.
pub proof fn law_client_path_names_joined_path(dir: Seq<char>, name: Seq<char>)
    requires
        dir.len() > 0,
        !(name.len() > 0 && name[0] == '/'),
    ensures
        collapse_slashes(dir + seq!['/'] + name) == collapse_slashes(join_text(dir, name)),
{
    if dir.last() == '/' {
        lemma_extra_slash_collapses(dir, name);
    }
}

/// Asks `probe_fn` about the map whose presence shows that maps are pinned
/// under `pin_path`, and gives back its answer.
fn probe_pinned_map<F: Fn(&str) -> bool>(pin_path: &str, probe_fn: F) -> (r: bool)
    requires
        forall|p: &str| probe_fn.requires((p,)),
    ensures
        exists|p: &str| p@ == probe_map_path(pin_path@) && probe_fn.ensures((p,), r),
{
    let probe = map_path(pin_path, "cpu_data");
    proof {
        reveal_strlit("cpu_data");
    }
    let probe_text = probe.as_str();
    let r = probe_fn(probe_text);
    assert(probe_text@ == probe_map_path(pin_path@));
    r
}

/// Whether procfast maps are currently pinned under `pin_path`: exactly what
/// `path_exists` answers for the CPU map's path `{pin_path}/cpu_data`
/// (`probe_map_path`), and for no other path.
pub fn is_pinned(pin_path: &str) -> (r: bool)
    ensures
        exists|p: &str| p@ == probe_map_path(pin_path@) && call_ensures(path_exists, (p,), r),
{
    probe_pinned_map(pin_path, path_exists)
}

} // verus!
