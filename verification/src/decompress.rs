//! The chunk decoder: expands one compressed chunk back into its records.
//!
//! Decoding is eager and whole: the chunk is decompressed to memory first,
//! and records are then read one by one from a cursor. Records come out in
//! exactly the order they were written into the chunk.

use vstd::prelude::*;
use crate::Error;
use crate::frame::{frame_payload, decode_frame};
use crate::record::{Record, parse_record, parse_all, decode_record, views_of};

pub mod io;
pub mod stream;

verus! {

/// Reads records out of one decompressed chunk. One-shot: the cursor only
/// moves forward.
pub struct ProstDecoder {
    buf: Vec<u8>,
    pos: usize,
}

impl ProstDecoder {
    pub closed spec fn wf(&self) -> bool {
        self.pos <= self.buf@.len()
    }

    /// The decompressed bytes not yet consumed.
    pub closed spec fn remaining(&self) -> Seq<u8> {
        self.buf@.skip(self.pos as int)
    }

    /// Decompresses a full chunk eagerly; records are then read from the
    /// decompressed buffer.
    pub fn new_decompressed(compressed: &[u8]) -> (r: Result<ProstDecoder, Error>)
        ensures
            match r {
                Ok(d) => {
                    &&& d.wf()
                    &&& frame_payload(compressed@) == Some(d.remaining())
                },
                Err(e) => {
                    &&& frame_payload(compressed@) is None
                    &&& e is Zstd
                },
            },
    {
        match decode_frame(compressed) {
            Ok(buf) => {
                let d = ProstDecoder { buf, pos: 0 };
                proof {
                    assert(d.buf@.skip(0) =~= d.buf@);
                }
                Ok(d)
            },
            Err(e) => Err(Error::Zstd(e)),
        }
    }

    /// Reads the next record, or nothing at the end of the buffer. On a
    /// parse failure the cursor stays where it was: a bad chunk is
    /// terminal, not resynchronized.
    pub fn next(&mut self) -> (r: Option<Result<Record, Error>>)
        requires
            old(self).wf(),
        ensures
            final(self).wf(),
            match r {
                None => {
                    &&& old(self).remaining().len() == 0
                    &&& *final(self) == *old(self)
                },
                Some(item) => match item {
                    Ok(rec) => {
                        &&& parse_record(old(self).remaining()) is Some
                        &&& parse_record(old(self).remaining())->Some_0.0 == rec@
                        &&& 1 <= parse_record(old(self).remaining())->Some_0.1
                            <= old(self).remaining().len()
                        &&& final(self).remaining() == old(self).remaining().skip(
                            parse_record(old(self).remaining())->Some_0.1 as int)
                    },
                    Err(e) => {
                        &&& old(self).remaining().len() > 0
                        &&& parse_record(old(self).remaining()) is None
                        &&& e is ProstDecode
                        &&& *final(self) == *old(self)
                    },
                },
            },
    {
        if self.pos == self.buf.len() {
            None
        } else {
            match decode_record(self.buf.as_slice(), self.pos) {
                Ok((rec, next_pos)) => {
                    proof {
                        assert(self.buf@.skip(self.pos as int).skip((next_pos - self.pos) as int)
                            =~= self.buf@.skip(next_pos as int));
                    }
                    self.pos = next_pos;
                    Some(Ok(rec))
                },
                Err(e) => Some(Err(e)),
            }
        }
    }

    /// Reads every remaining record, in order. A parse failure halts the
    /// whole chunk with that failure: there is no partial success.
    #[verifier::loop_isolation(false)]
    pub fn read_all(self) -> (r: Result<Vec<Record>, Error>)
        requires
            self.wf(),
        ensures
            match r {
                Ok(recs) => parse_all(self.remaining()) == Some(views_of(recs@)),
                Err(e) => {
                    &&& parse_all(self.remaining()) is None
                    &&& e is ProstDecode
                },
            },
    {
        let mut me = self;
        let mut out: Vec<Record> = Vec::new();
        while me.pos < me.buf.len()
            invariant
                me.wf(),
                match parse_all(me.remaining()) {
                    Some(rest) => parse_all(self.remaining()) == Some(views_of(out@) + rest),
                    None => parse_all(self.remaining()) is None,
                },
            decreases me.buf@.len() - me.pos,
        {
            let ghost rem = me.remaining();
            match me.next() {
                None => {
                    proof {
                        assert(false);
                    }
                },
                Some(item) => match item {
                    Ok(rec) => {
                        out.push(rec);
                        proof {
                            let n = parse_record(rem)->Some_0.1;
                            assert(parse_all(rem) == (match parse_all(rem.skip(n as int)) {
                                Some(rs) => Some(seq![rec@] + rs),
                                None => None::<Seq<crate::record::RecordV>>,
                            }));
                            match parse_all(me.remaining()) {
                                Some(rest) => {
                                    assert(views_of(out@) + rest
                                        =~= views_of(out@.drop_last()) + (seq![rec@] + rest));
                                },
                                None => {},
                            }
                        }
                    },
                    Err(e) => {
                        return Err(e);
                    },
                },
            }
        }
        proof {
            assert(me.remaining().len() == 0);
            assert(views_of(out@) + Seq::<crate::record::RecordV>::empty() =~= views_of(out@));
        }
        Ok(out)
    }
}

} // verus!
