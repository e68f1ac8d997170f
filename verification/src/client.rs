//! A client of the maps that a running daemon pinned.

use crate::error::ClientError;
use crate::fsprobe::path_exists;
use crate::pin::{is_pinned, probe_map_path, DEFAULT_PIN_PATH};
use vstd::prelude::*;
use vstd::string::StringExecFns;

verus! {

/// Client handle for reading procfast metrics from pinned maps.
pub struct ProcfastClient {
    pin_dir: String,
}

impl ProcfastClient {
    /// The pin directory that the client reads from.
    pub closed spec fn pin_dir(&self) -> Seq<char> {
        self.pin_dir@
    }

    /// The pin directory that the client reads from.
    pub fn pin_dir_str(&self) -> (r: &str)
        ensures
            r@ == self.pin_dir(),
    {
        self.pin_dir.as_str()
    }

    /// The outcome of connecting to `pin_dir` once it is known whether the
    /// directory exists and whether the daemon's maps are pinned in it: the
    /// daemon runs exactly when both hold.
    pub fn from_probe(pin_dir: &str, dir_exists: bool, maps_pinned: bool) -> (r: Result<
        Self,
        ClientError,
    >)
        ensures
            dir_exists && maps_pinned ==> (r matches Ok(c) && c.pin_dir() == pin_dir@),
            !(dir_exists && maps_pinned) ==> (r matches Err(ClientError::NotRunning(p)) && p@
                == pin_dir@),
    {
        if !(dir_exists && maps_pinned) {
            return Err(ClientError::NotRunning(String::from_str(pin_dir)));
        }
        Ok(ProcfastClient { pin_dir: String::from_str(pin_dir) })
    }

    /// Connects to a running daemon by its pin directory; fails with
    /// `NotRunning` when the directory does not exist or holds no pinned
    /// CPU map.
    pub fn connect(pin_dir: &str) -> (r: Result<Self, ClientError>)
        ensures
            r matches Ok(c) ==> c.pin_dir() == pin_dir@,
            r matches Err(e) ==> (e matches ClientError::NotRunning(p) && p@ == pin_dir@),
            exists|probe: &str, pinned: bool|
                probe@ == probe_map_path(pin_dir@) && call_ensures(path_exists, (probe,), pinned)
                    && (r is Ok ==> pinned),
    {
        let exists = path_exists(pin_dir);
        let pinned = is_pinned(pin_dir);
        Self::from_probe(pin_dir, exists, pinned)
    }

    /// Connects to a daemon at the default pin directory.
    pub fn connect_default() -> (r: Result<Self, ClientError>)
        ensures
            r matches Ok(c) ==> c.pin_dir() == DEFAULT_PIN_PATH@,
            r matches Err(e) ==> (e matches ClientError::NotRunning(p) && p@ == DEFAULT_PIN_PATH@),
    {
        Self::connect(DEFAULT_PIN_PATH)
    }

    /// The path of a pinned map: the pin directory, `/`, the map's name.
    pub fn map_path(&self, name: &str) -> (r: String)
        ensures
            r@ == self.pin_dir() + seq!['/'] + name@,
    {
        let slash = "/";
        proof {
            reveal_strlit("/");
        }
        let mut r = self.pin_dir.clone();
        r.append(slash);
        r.append(name);
        r
    }
}

} // verus!
