//! Index types for line-delimited record output and dataset pipelines.
//!
//! `JsonlWriter` frames already-encoded records as lines in an owned
//! byte buffer: one record per line, each terminated by a line feed,
//! with no line feed inside a record. Turning a record into its encoded
//! bytes (and back) is the serialization boundary around the core and
//! lives outside it.

use vstd::prelude::*;

use crate::error::DcfError;

verus! {

/// Metadata record for a processed document.
#[derive(Debug, Clone)]
pub struct DocumentRecord {
    pub doc_id: String,
    pub title: Option<String>,
    pub source_type: String,
    pub source_format: String,
    pub source_ref: String,
    pub tags: Vec<String>,
}

impl Default for DocumentRecord {
    /// The empty record.
    fn default() -> (r: Self)
        ensures
            r.doc_id@ == Seq::<char>::empty(),
            r.title is None,
            r.source_type@ == Seq::<char>::empty(),
            r.source_format@ == Seq::<char>::empty(),
            r.source_ref@ == Seq::<char>::empty(),
            r.tags@.len() == 0,
    {
        DocumentRecord {
            doc_id: String::new(),
            title: None,
            source_type: String::new(),
            source_format: String::new(),
            source_ref: String::new(),
            tags: Vec::new(),
        }
    }
}

/// A streaming line writer over an owned byte buffer.
pub struct JsonlWriter {
    out: Vec<u8>,
}

impl View for JsonlWriter {
    type V = Seq<u8>;

    closed spec fn view(&self) -> Seq<u8> {
        self.out@
    }
}

impl JsonlWriter {
    /// Wraps an output buffer; records are appended to it.
    pub fn new(out: Vec<u8>) -> (r: Self)
        ensures
            r@ == out@,
    {
        JsonlWriter { out }
    }

    /// Appends one encoded record as a line. A record holding a line
    /// feed would break the one-record-per-line framing: it is refused
    /// as an encoding failure and the buffer is left unchanged.
    pub fn write_line(&mut self, record: &[u8]) -> (r: Result<(), DcfError>)
        ensures
            match r {
                Ok(()) => {
                    &&& final(self)@ == old(self)@ + record@ + seq![10u8]
                    &&& forall|i: int| 0 <= i < record@.len() ==> record@[i] != 10
                },
                Err(e) => {
                    &&& e == DcfError::EncodingFailure
                    &&& final(self)@ == old(self)@
                    &&& exists|i: int| 0 <= i < record@.len() && record@[i] == 10
                },
            },
    {
        let mut i: usize = 0;
        while i < record.len()
            invariant
                0 <= i <= record@.len(),
                forall|j: int| 0 <= j < i ==> record@[j] != 10,
            decreases record.len() - i,
        {
            if record[i] == 10 {
                return Err(DcfError::EncodingFailure);
            }
            i = i + 1;
        }
        let ghost before = self.out@;
        let mut k: usize = 0;
        while k < record.len()
            invariant
                0 <= k <= record@.len(),
                self.out@ == before + record@.take(k as int),
            decreases record.len() - k,
        {
            self.out.push(record[k]);
            proof {
                assert(before + record@.take(k + 1) =~= (before + record@.take(k as int)).push(
                    record@[k as int],
                ));
            }
            k = k + 1;
        }
        self.out.push(10);
        proof {
            assert(record@.take(record@.len() as int) =~= record@);
            assert(self.out@ =~= old(self)@ + record@ + seq![10u8]);
        }
        Ok(())
    }

    /// Flushes the writer. The buffer is the sink, so nothing is
    /// pending: the writer is unchanged and the call always succeeds.
    pub fn flush(&mut self) -> (r: Result<(), DcfError>)
        ensures
            final(self)@ == old(self)@,
            r is Ok,
    {
        Ok(())
    }

    /// Consumes the writer and returns the buffer.
    pub fn into_inner(self) -> (r: Vec<u8>)
        ensures
            r@ == self@,
    {
        self.out
    }
}

} // verus!
