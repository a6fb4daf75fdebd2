//! The walk over the box tree of a file.
//!
//! The walker does not read the file. It says where the next box header
//! stands and how many bytes may be read there; a driver reads them and hands
//! them to [`BoxWalker::visit`], which says what the box is and where its
//! body lies, and moves on to the next box. The containers that are being
//! walked are held as a stack of the offsets at which they end, so that a
//! file cannot drive the walk deeper than [`MAX_DEPTH`].

use crate::box_header::{lemma_parsed_header_wf, parsed_header, BoxHeader, LONG_HEADER};
use crate::error::InspectError;
use crate::preview::preview_len;
use vstd::prelude::*;
use vstd::slice::slice_subrange;

verus! {

/// The most containers that may be open at once.
pub const MAX_DEPTH: usize = 64;

/// What is to be done with a box that was visited.
#[derive(Clone, Copy, Debug, PartialEq, Eq, Structural)]
pub enum BoxAction {
    /// The box has the size 0: it runs to the end of its container, and the
    /// walk of that container ends here.
    EndOfContainer,
    /// The box is a container. Its children are visited next.
    Descend { body_offset: u64, body_size: u64 },
    /// The box is a leaf. Its body may be previewed; the walk goes on behind it.
    Leaf { body_offset: u64, body_size: u64 },
}

/// A box that the walk has come to.
#[derive(Clone, Copy, Debug, PartialEq, Eq, Structural)]
pub struct BoxVisit {
    /// The number of containers around the box.
    pub depth: usize,
    /// Where the header of the box starts.
    pub offset: u64,
    /// The header of the box.
    pub header: BoxHeader,
    /// What follows from the header.
    pub action: BoxAction,
}

/// Where the next header stands and how many bytes may be read for it.
#[derive(Clone, Copy, Debug, PartialEq, Eq, Structural)]
pub struct HeaderRequest {
    pub offset: u64,
    pub length: usize,
}

/// The state of a walk: the ends of the containers that are open, outermost
/// first, and the offset of the next box header.
pub struct WalkState {
    pub ends: Seq<u64>,
    pub position: u64,
}

impl WalkState {
    /// No container ends behind the one around it.
    pub open spec fn nested(self) -> bool {
        forall|i: int, j: int| 0 <= i <= j < self.ends.len() ==> self.ends[j] <= self.ends[i]
    }

    /// At most `MAX_DEPTH` containers are open, they are nested, and the next
    /// header starts inside the innermost of them.
    pub open spec fn wf(self) -> bool {
        &&& self.ends.len() <= MAX_DEPTH
        &&& self.nested()
        &&& self.ends.len() > 0 ==> self.position < self.ends.last()
    }

    /// No container is open any more: the walk is over.
    pub open spec fn finished(self) -> bool {
        self.ends.len() == 0
    }

    /// The number of bytes that may be read for the next header: 16, or what
    /// is left of the innermost container where that is less.
    pub open spec fn request_len(self) -> nat {
        if self.ends.last() - self.position < LONG_HEADER {
            (self.ends.last() - self.position) as nat
        } else {
            LONG_HEADER as nat
        }
    }

    /// The part of what the driver read that the walker looks at.
    pub open spec fn window(self, bytes: Seq<u8>) -> Seq<u8> {
        if bytes.len() > self.request_len() {
            bytes.subrange(0, self.request_len() as int)
        } else {
            bytes
        }
    }

    /// Closes the containers that end at or before the position.
    pub open spec fn settle(self) -> WalkState
        decreases self.ends.len(),
    {
        if self.ends.len() > 0 && self.position >= self.ends.last() {
            WalkState { ends: self.ends.drop_last(), position: self.position }.settle()
        } else {
            self
        }
    }

    /// The visit of the box at the position, of which the driver read
    /// `bytes`: the state after it and what the box is, or the failure.
    ///
    /// A box of size 0 closes its container without a failure. A box that
    /// ends behind its container is malformed, and so is a container inside
    /// `MAX_DEPTH` others.
    pub open spec fn step(self, bytes: Seq<u8>) -> Result<(WalkState, BoxVisit), InspectError> {
        match parsed_header(self.window(bytes), self.position) {
            Err(e) => Err(e),
            Ok(header) => {
                let depth = (self.ends.len() - 1) as usize;
                let body_offset = (self.position + header.header_length) as u64;
                let body_size = (header.size - header.header_length) as u64;
                let malformed = InspectError::MalformedBox {
                    box_type: header.type_code,
                    offset: self.position,
                };
                if header.size == 0 {
                    Ok(
                        (
                            WalkState {
                                ends: self.ends.drop_last(),
                                position: self.ends.last(),
                            }.settle(),
                            BoxVisit {
                                depth,
                                offset: self.position,
                                header,
                                action: BoxAction::EndOfContainer,
                            },
                        ),
                    )
                } else if self.position + header.size > self.ends.last() {
                    Err(malformed)
                } else if header.container() {
                    if self.ends.len() >= MAX_DEPTH {
                        Err(malformed)
                    } else {
                        Ok(
                            (
                                WalkState {
                                    ends: self.ends.push((self.position + header.size) as u64),
                                    position: body_offset,
                                }.settle(),
                                BoxVisit {
                                    depth,
                                    offset: self.position,
                                    header,
                                    action: BoxAction::Descend { body_offset, body_size },
                                },
                            ),
                        )
                    }
                } else {
                    Ok(
                        (
                            WalkState {
                                ends: self.ends,
                                position: (self.position + header.size) as u64,
                            }.settle(),
                            BoxVisit {
                                depth,
                                offset: self.position,
                                header,
                                action: BoxAction::Leaf { body_offset, body_size },
                            },
                        ),
                    )
                }
            },
        }
    }

    /// The state of the walk after the visits for which the driver read
    /// `inputs`, one after the other. The walk stops where it is over or a
    /// visit fails.
    pub open spec fn after(self, inputs: Seq<Seq<u8>>) -> WalkState
        decreases inputs.len(),
    {
        if inputs.len() == 0 || self.finished() {
            self
        } else {
            match self.step(inputs[0]) {
                Ok((next, _)) => next.after(inputs.drop_first()),
                Err(_) => self,
            }
        }
    }

    /// Closing containers leaves a well-formed state, with the same position
    /// and with the containers that stay open unchanged.
    pub proof fn lemma_settle(self)
        requires
            self.ends.len() <= MAX_DEPTH,
            self.nested(),
        ensures
            self.settle().wf(),
            self.settle().position == self.position,
            self.settle().ends.len() <= self.ends.len(),
            self.settle().ends == self.ends.subrange(0, self.settle().ends.len() as int),
        decreases self.ends.len(),
    {
        if self.ends.len() > 0 && self.position >= self.ends.last() {
            let rest = WalkState { ends: self.ends.drop_last(), position: self.position };
            rest.lemma_settle();
        }
    }

    /// A visit moves the walk forward and keeps it inside the outermost
    /// container: the state after it is well-formed, its position lies behind
    /// the one before and not behind the end of the outermost container, and
    /// that end stays what it was.
    pub proof fn lemma_step_advances(self, bytes: Seq<u8>)
        requires
            self.wf(),
            !self.finished(),
        ensures
            self.step(bytes) matches Ok((next, visit)) ==> {
                &&& next.wf()
                &&& next.position > self.position
                &&& next.position <= self.ends[0]
                &&& next.ends.len() > 0 ==> next.ends[0] == self.ends[0]
                &&& visit.offset == self.position
                &&& visit.header.wf()
            },
    {
        lemma_parsed_header_wf(self.window(bytes), self.position);
        match self.step(bytes) {
            Ok((next, visit)) => {
                let header = visit.header;
                if header.size == 0 {
                    let popped = WalkState {
                        ends: self.ends.drop_last(),
                        position: self.ends.last(),
                    };
                    popped.lemma_settle();
                } else if header.container() {
                    let pushed = WalkState {
                        ends: self.ends.push((self.position + header.size) as u64),
                        position: (self.position + header.header_length) as u64,
                    };
                    pushed.lemma_settle();
                } else {
                    let moved = WalkState {
                        ends: self.ends,
                        position: (self.position + header.size) as u64,
                    };
                    moved.lemma_settle();
                }
            },
            Err(_) => {},
        }
    }

    /// The walk reads nothing behind the end of a container: the bytes asked
    /// for a header end inside the innermost container, and the body of a box
    /// that was visited, and with it what a preview shows of it, ends inside
    /// the container that holds the box. Every container ends inside the
    /// outermost one.
    pub proof fn lemma_reads_inside_container(self, bytes: Seq<u8>)
        requires
            self.wf(),
            !self.finished(),
        ensures
            self.position + self.request_len() <= self.ends.last() <= self.ends[0],
            self.step(bytes) matches Ok((_, visit)) ==> match visit.action {
                BoxAction::EndOfContainer => true,
                BoxAction::Descend { body_offset, body_size } => self.position <= body_offset
                    && body_offset + body_size <= self.ends.last(),
                BoxAction::Leaf { body_offset, body_size } => self.position <= body_offset
                    && body_offset + preview_len(body_size) <= body_offset + body_size
                    <= self.ends.last(),
            },
    {
        lemma_parsed_header_wf(self.window(bytes), self.position);
    }

    /// Whatever the driver reads, a walk never leaves the container it was
    /// started in: after any number of visits the state is well-formed, the
    /// position has not gone back and lies within that container, and the
    /// bytes that are asked for the next header end within it.
    pub proof fn lemma_walk_stays_inside(self, inputs: Seq<Seq<u8>>)
        requires
            self.wf(),
            !self.finished(),
        ensures
            self.after(inputs).wf(),
            self.position <= self.after(inputs).position <= self.ends[0],
            !self.after(inputs).finished() ==> self.after(inputs).ends[0] == self.ends[0]
                && self.after(inputs).position + self.after(inputs).request_len()
                <= self.ends[0],
        decreases inputs.len(),
    {
        self.lemma_reads_inside_container(Seq::empty());
        if inputs.len() > 0 {
            let rest = inputs.drop_first();
            self.lemma_step_advances(inputs[0]);
            match self.step(inputs[0]) {
                Ok((next, _)) => {
                    if next.finished() {
                        assert(next.after(rest) == next);
                    } else {
                        next.lemma_walk_stays_inside(rest);
                    }
                },
                Err(_) => {
                    assert(self.after(inputs) == self);
                },
            }
        } else {
            assert(self.after(inputs) == self);
        }
    }

    /// A header with the size 0 ends the walk of its container, and is no
    /// failure.
    pub proof fn lemma_zero_size_ends_container(self, bytes: Seq<u8>)
        requires
            self.wf(),
            !self.finished(),
            parsed_header(self.window(bytes), self.position) matches Ok(header) && header.size
                == 0,
        ensures
            self.step(bytes) matches Ok((next, visit)) && visit.action == BoxAction::EndOfContainer
                && next.ends.len() < self.ends.len(),
    {
        let popped = WalkState { ends: self.ends.drop_last(), position: self.ends.last() };
        popped.lemma_settle();
    }
}

/// Walks the boxes of a file, container by container.
pub struct BoxWalker {
    ends: Vec<u64>,
    position: u64,
}

impl View for BoxWalker {
    type V = WalkState;

    closed spec fn view(&self) -> WalkState {
        WalkState { ends: self.ends@, position: self.position }
    }
}

impl BoxWalker {
    /// A walk of the boxes that stand from `start` up to `container_end`.
    pub fn new(start: u64, container_end: u64) -> (walker: BoxWalker)
        ensures
            walker@.wf(),
            walker@.position == start,
            walker@.ends == if start < container_end {
                seq![container_end]
            } else {
                Seq::<u64>::empty()
            },
    {
        let mut ends: Vec<u64> = Vec::new();
        if start < container_end {
            ends.push(container_end);
        }
        BoxWalker { ends, position: start }
    }

    /// Whether the walk is over.
    pub fn is_finished(&self) -> (r: bool)
        ensures
            r == self@.finished(),
    {
        self.ends.len() == 0
    }

    /// The number of containers that are open around the next box.
    pub fn depth(&self) -> (r: usize)
        requires
            !self@.finished(),
        ensures
            r == self@.ends.len() - 1,
    {
        self.ends.len() - 1
    }

    /// Where the next header stands and how many bytes may be read for it;
    /// `None` when the walk is over.
    pub fn next_header(&self) -> (r: Option<HeaderRequest>)
        requires
            self@.wf(),
        ensures
            self@.finished() ==> r is None,
            !self@.finished() ==> r == Some(
                HeaderRequest { offset: self@.position, length: self@.request_len() as usize },
            ),
    {
        if self.ends.len() == 0 {
            return None;
        }
        let left = self.ends[self.ends.len() - 1] - self.position;
        let length = if left < LONG_HEADER as u64 {
            left as usize
        } else {
            LONG_HEADER as usize
        };
        Some(HeaderRequest { offset: self.position, length })
    }

    /// Visits the box whose header stands at the position that `next_header`
    /// gave. `bytes` is what the driver could read there, at most as many
    /// bytes as were asked for; what is more is not looked at. On a failure
    /// the walker stays as it was.
    pub fn visit(&mut self, bytes: &[u8]) -> (r: Result<BoxVisit, InspectError>)
        requires
            old(self)@.wf(),
            !old(self)@.finished(),
        ensures
            final(self)@.wf(),
            match old(self)@.step(bytes@) {
                Ok((next, visit)) => r == Ok::<BoxVisit, InspectError>(visit) && final(self)@
                    == next,
                Err(e) => r == Err::<BoxVisit, InspectError>(e) && final(self)@ == old(self)@,
            },
    {
        proof {
            self@.lemma_step_advances(bytes@);
        }
        let depth = self.ends.len() - 1;
        let end = self.ends[depth];
        let left = end - self.position;
        let window = if left < LONG_HEADER as u64 && bytes.len() > left as usize {
            slice_subrange(bytes, 0, left as usize)
        } else if bytes.len() > LONG_HEADER as usize {
            slice_subrange(bytes, 0, LONG_HEADER as usize)
        } else {
            bytes
        };
        proof {
            lemma_parsed_header_wf(window@, self.position);
        }
        let header = match BoxHeader::parse(window, self.position) {
            Ok(header) => header,
            Err(e) => {
                return Err(e);
            },
        };
        let offset = self.position;
        let malformed = InspectError::MalformedBox { box_type: header.type_code, offset };
        if header.size == 0 {
            self.ends.pop();
            self.position = end;
            self.settle();
            return Ok(BoxVisit { depth, offset, header, action: BoxAction::EndOfContainer });
        }
        if header.size > left {
            return Err(malformed);
        }
        let body_offset = offset + header.header_length as u64;
        let body_size = header.size - header.header_length as u64;
        if header.is_container() {
            if self.ends.len() >= MAX_DEPTH {
                return Err(malformed);
            }
            self.ends.push(offset + header.size);
            self.position = body_offset;
            self.settle();
            Ok(BoxVisit { depth, offset, header, action: BoxAction::Descend { body_offset, body_size } })
        } else {
            self.position = offset + header.size;
            self.settle();
            Ok(BoxVisit { depth, offset, header, action: BoxAction::Leaf { body_offset, body_size } })
        }
    }

    /// Closes the containers that end at or before the position.
    fn settle(&mut self)
        ensures
            final(self)@ == old(self)@.settle(),
    {
        while self.ends.len() > 0 && self.position >= self.ends[self.ends.len() - 1]
            invariant
                self@.settle() == old(self)@.settle(),
            decreases self.ends.len(),
        {
            self.ends.pop();
        }
    }
}

} // verus!
