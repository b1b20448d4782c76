//! The settings of a run: where the cookie jar is, which boards to archive and
//! where, and how many downloads may run at once.
use vstd::prelude::*;

verus! {

/// The number of downloads that may run at once when the settings name none.
pub const DEFAULT_MAX_CONNECTIONS: usize = 20;

/// The settings of a run.
#[derive(Debug, Clone)]
pub struct Config {
    /// Path of the browser-exported cookie jar.
    pub cookies_file: String,
    /// How many asset downloads may be in flight at once.
    pub max_connections: usize,
    /// Each target (cafe) by name, with its boards; `wf` asks that no name repeat.
    pub cafe: Vec<(String, CafeConfig)>,
    /// Where set, a board's scan ends after this many fetches in a row give no
    /// post, and refused posts count as such; where absent, it ends at the
    /// latest ID of the board listing, and a refused post ends it with an error.
    pub missing_streak: Option<usize>,
}

/// The boards of one target and where to archive them.
#[derive(Debug, Clone)]
pub struct CafeConfig {
    /// Root of the archive for this target; `cafe` where absent.
    pub download_path: Option<String>,
    /// The boards to archive, in order.
    pub boards: Vec<String>,
}

impl Config {
    /// No target is named twice.
    pub open spec fn wf(&self) -> bool {
        forall|i: int, j: int|
            0 <= i < self.cafe@.len() && 0 <= j < self.cafe@.len() && i != j ==> self.cafe@[i].0@
                != self.cafe@[j].0@
    }

    /// Whether no target is named twice.
    pub fn has_unique_targets(&self) -> (r: bool)
        ensures
            r == self.wf(),
    {
        let n = self.cafe.len();
        let mut i: usize = 0;
        while i < n
            invariant
                n == self.cafe@.len(),
                i <= n,
                forall|a: int, b: int|
                    0 <= a < i && 0 <= b < n && a != b ==> self.cafe@[a].0@ != self.cafe@[b].0@,
            decreases n - i,
        {
            let mut j: usize = 0;
            while j < n
                invariant
                    n == self.cafe@.len(),
                    i < n,
                    j <= n,
                    forall|a: int, b: int|
                        0 <= a < i && 0 <= b < n && a != b ==> self.cafe@[a].0@ != self.cafe@[b].0@,
                    forall|b: int| 0 <= b < j && b != i ==> self.cafe@[i as int].0@ != self.cafe@[b].0@,
                decreases n - j,
            {
                if j != i && self.cafe[i].0 == self.cafe[j].0 {
                    return false;
                }
                j = j + 1;
            }
            i = i + 1;
        }
        true
    }
}

/// The number of downloads that may run at once when the settings name none.
pub fn default_num_processes() -> (r: usize)
    ensures
        r == DEFAULT_MAX_CONNECTIONS,
{
    DEFAULT_MAX_CONNECTIONS
}

} // verus!
