use vstd::prelude::*;

verus! {

/// Counts the chunks of an artifact sent so far.
pub trait IDownloadReportChunks {
    /// How many chunks were sent.
    spec fn sent(&self) -> nat;

    fn new() -> (r: DownloadReportChunks)
        ensures
            r.chunk_num == 0;

    /// One more chunk sent; the count stops at its largest value.
    fn increment(&mut self)
        ensures
            old(self).sent() < usize::MAX ==> final(self).sent() == old(self).sent() + 1,
            old(self).sent() >= usize::MAX ==> final(self).sent() == old(self).sent();
}

#[derive(Debug, Clone)]
pub struct DownloadReportChunks {
    pub chunk_num: usize,
}

impl IDownloadReportChunks for DownloadReportChunks {
    open spec fn sent(&self) -> nat {
        self.chunk_num as nat
    }

    fn new() -> (r: DownloadReportChunks) {
        DownloadReportChunks { chunk_num: 0 }
    }

    fn increment(&mut self) {
        if self.chunk_num < usize::MAX {
            self.chunk_num = self.chunk_num + 1;
        }
    }
}

} // verus!
