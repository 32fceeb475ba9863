//! The state a front end keeps while driving the pipeline: the chosen roots,
//! the last report, and progress bookkeeping. A graphical shell holds a copy
//! of this data with its toolkit's derives and mirrors every transition
//! through the methods here.
use vstd::prelude::*;

verus! {

/// A chosen root directory, displayable to the user.
#[derive(Debug)]
pub struct DisplayablePath {
    pub pathbuf: String,
}

impl DisplayablePath {
    pub fn new(pathbuf: String) -> (p: DisplayablePath)
        ensures
            p.pathbuf == pathbuf,
    {
        DisplayablePath { pathbuf }
    }

    /// The text a list row shows for this path.
    pub fn display(&self) -> (s: String)
        ensures
            s@ == self.pathbuf@,
    {
        self.pathbuf.clone()
    }
}

impl Clone for DisplayablePath {
    fn clone(&self) -> (p: Self)
        ensures
            p == *self,
    {
        DisplayablePath { pathbuf: self.pathbuf.clone() }
    }
}

/// What a front end displays: the roots picked so far, the duplicate lines of
/// the last finished run, and whether a run is underway.
#[derive(Debug)]
pub struct AppState {
    pub paths: Vec<DisplayablePath>,
    pub dupes: Vec<String>,
    pub processing: bool,
    pub progress_info: String,
}

impl Default for AppState {
    /// No roots picked, nothing found, idle.
    fn default() -> (s: AppState)
        ensures
            s.paths@.len() == 0,
            s.dupes@.len() == 0,
            !s.processing,
            s.progress_info@.len() == 0,
    {
        AppState { paths: Vec::new(), dupes: Vec::new(), processing: false, progress_info: String::new() }
    }
}

impl AppState {
    /// Record one more root directory to scan.
    pub fn push_path(&mut self, p: DisplayablePath)
        ensures
            final (self).paths@ == old(self).paths@.push(p),
            final (self).dupes == old(self).dupes,
            final (self).processing == old(self).processing,
            final (self).progress_info == old(self).progress_info,
    {
        self.paths.push(p);
    }

    /// A run starts: clear the previous report and mark the state busy.
    pub fn start_processing(&mut self)
        ensures
            final (self).paths == old(self).paths,
            final (self).dupes@.len() == 0,
            final (self).processing,
            final (self).progress_info == old(self).progress_info,
    {
        self.dupes = Vec::new();
        self.processing = true;
    }

    /// A run finished: record its duplicate lines and mark the state idle.
    pub fn finish_processing(&mut self, dupes: Vec<String>)
        ensures
            final (self).paths == old(self).paths,
            final (self).dupes == dupes,
            !final (self).processing,
            final (self).progress_info == old(self).progress_info,
    {
        self.dupes = dupes;
        self.processing = false;
    }

    /// Show a fresh progress message.
    pub fn set_progress(&mut self, message: String)
        ensures
            final (self).paths == old(self).paths,
            final (self).dupes == old(self).dupes,
            final (self).processing == old(self).processing,
            final (self).progress_info == message,
    {
        self.progress_info = message;
    }

    /// The chosen roots as plain path strings, in order, ready to hand to the
    /// pipeline's configuration.
    pub fn path_list(&self) -> (out: Vec<String>)
        ensures
            out@.len() == self.paths@.len(),
            forall|i: int|
                0 <= i < out@.len() ==> (#[trigger] out@[i]) == self.paths@[i].pathbuf,
    {
        let n = self.paths.len();
        let mut out: Vec<String> = Vec::new();
        let mut i: usize = 0;
        while i < n
            invariant
                n == self.paths@.len(),
                i <= n,
                out@.len() == i,
                forall|j: int|
                    0 <= j < i ==> (#[trigger] out@[j]) == self.paths@[j].pathbuf,
            decreases n - i,
        {
            out.push(self.paths[i].pathbuf.clone());
            i = i + 1;
        }
        out
    }
}

} // verus!
