//! The compiled-in jobs. The manifest fetch job keeps the catalog
//! synchronized with the external feed at low cost: it remembers the ETag
//! of the last successful fetch and decides, from the HTTP status and the
//! response's ETag, whether the body must be imported. The surrounding
//! runtime performs the request and the import; the decision is made
//! here.

use vstd::prelude::*;

verus! {

/// What a conditional fetch's response calls for.
#[derive(Debug, Clone, Copy, PartialEq, Eq, Structural)]
pub enum FetchAction {
    /// New content arrived: parse it and reconcile the catalog.
    Import,
    /// The feed is unchanged: nothing to do.
    NotModified,
    /// The response is unusable: surface a job error; the catalog and the
    /// stored ETag stay as they are.
    Failed,
}

/// The manifest fetch job's state: the ETag of the last successful fetch,
/// empty before the first one; held for the process's lifetime only.
#[derive(Debug)]
pub struct LudusaviJob {
    pub etag: String,
}

impl Default for LudusaviJob {
    /// A fetch job that has not fetched yet.
    fn default() -> (r: LudusaviJob)
        ensures
            r.etag@ == Seq::<char>::empty(),
    {
        LudusaviJob { etag: String::new() }
    }
}

impl LudusaviJob {
    /// The job's display name.
    pub fn name(&self) -> (r: &'static str)
        ensures
            r@ == "Ludusavi Job"@,
    {
        "Ludusavi Job"
    }

    /// The cache-validation token to send as `If-None-Match`: the stored
    /// ETag, the empty string before the first successful fetch.
    pub fn request_etag(&self) -> (r: &String)
        ensures
            r@ == self.etag@,
    {
        &self.etag
    }

    /// Decide what a response calls for. New content (HTTP 200) with an
    /// ETag header replaces the stored ETag and is imported; new content
    /// without one is an error; 304 means the feed is unchanged; any
    /// other status is an error. The stored ETag changes only on a
    /// usable 200.
    pub fn handle_response(&mut self, status: u16, etag: Option<String>) -> (r: FetchAction)
        ensures
            status == 200 ==> (match etag {
                Some(t) => r == FetchAction::Import && final(self).etag@ == t@,
                None => r == FetchAction::Failed && final(self).etag@ == old(self).etag@,
            }),
            status == 304 ==> r == FetchAction::NotModified && final(self).etag@ == old(
                self,
            ).etag@,
            status != 200 && status != 304 ==> r == FetchAction::Failed && final(self).etag@
                == old(self).etag@,
    {
        if status == 200 {
            match etag {
                Some(t) => {
                    self.etag = t;
                    FetchAction::Import
                },
                None => FetchAction::Failed,
            }
        } else if status == 304 {
            FetchAction::NotModified
        } else {
            FetchAction::Failed
        }
    }
}

/// A trivial job used to exercise the scheduler; its run prints a line,
/// which the surrounding runtime does.
#[derive(Debug)]
pub struct DemoJob;

impl DemoJob {
    /// The job's display name.
    pub fn name(&self) -> (r: &'static str)
        ensures
            r@ == "DemoJob"@,
    {
        "DemoJob"
    }
}

} // verus!
