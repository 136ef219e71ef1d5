//! Decisions of the reader that polls the pipes of the children in rotation.

use crate::record_collection::{
    decode_frame, native_order, spec_decode, ByteOrder, ProcessInfo, FRAME_SIZE,
};
use vstd::prelude::*;

verus! {

/// What the reader is to do next.
#[derive(Clone, Copy, Debug, PartialEq, Eq, Structural)]
pub enum ReaderAction {
    /// Look whether the executor still runs, then report through `running`.
    CheckRunning,
    /// Try to read one whole frame from this pipe, then report through `frame`.
    Read { pipe: usize },
    /// Drop the sending end of the channel and return.
    Close,
}

/// The state of the reader.
pub struct ReaderView {
    /// The number of pipes.
    pub pipes: nat,
    /// The byte order in which frames are decoded.
    pub order: ByteOrder,
    /// Whether the executor has stopped, so that the pipes are being drained.
    pub draining: bool,
    /// The pipe at which the current pass goes on; the number of pipes once
    /// the pass is over.
    pub cursor: nat,
    /// Whether the current drain pass has read a frame.
    pub clean: bool,
}

impl ReaderView {
    /// The invariant of the reader.
    pub open spec fn wf(self) -> bool {
        &&& self.cursor <= self.pipes <= usize::MAX
        &&& self.clean ==> self.draining && self.pipes > 0
    }

    /// The reader before its first pass.
    pub open spec fn start(pipes: nat, order: ByteOrder) -> ReaderView {
        ReaderView { pipes, order, draining: false, cursor: pipes, clean: false }
    }

    /// What the reader is to do next.
    ///
    /// Within a pass the pipes are read in order. While the executor runs, a
    /// pass that is over is followed by a look at the executor. Once the
    /// executor has stopped, a pass that read a frame is followed by another
    /// pass, and a pass that read none by the end.
    pub open spec fn action(self) -> ReaderAction {
        if self.cursor < self.pipes {
            ReaderAction::Read { pipe: self.cursor as usize }
        } else if !self.draining {
            ReaderAction::CheckRunning
        } else if self.clean {
            ReaderAction::Read { pipe: 0 }
        } else {
            ReaderAction::Close
        }
    }

    /// The reader with its pass moved on to the pipe of the next action.
    pub open spec fn settled(self) -> ReaderView {
        if self.cursor >= self.pipes && self.draining && self.clean {
            ReaderView { cursor: 0, clean: false, ..self }
        } else {
            self
        }
    }

    /// Whether the pass stands at a pipe that is to be read.
    pub open spec fn at_read(self) -> bool {
        self.cursor < self.pipes
    }

    /// Whether a pass is over while the executor was last seen running.
    pub open spec fn at_check(self) -> bool {
        !self.draining && self.cursor >= self.pipes
    }

    /// The reader after a look at the executor: a new pass, which is a drain
    /// pass once the executor has stopped.
    pub open spec fn after_check(self, running: bool) -> ReaderView {
        ReaderView { draining: !running, cursor: 0, clean: false, ..self }
    }

    /// The reader after an attempt to read the pipe at the cursor. A frame
    /// that is read in a drain pass calls for another pass.
    pub open spec fn after_read(self, got_frame: bool) -> ReaderView {
        ReaderView {
            cursor: self.cursor + 1,
            clean: self.clean || (self.draining && got_frame),
            ..self
        }
    }

    /// The reader after a frame could not be sent on: the current pass is over.
    pub open spec fn after_send_failure(self) -> ReaderView {
        ReaderView { cursor: self.pipes, ..self }
    }
}

/// The reader of the pipes: the place it has reached in its rotation.
#[derive(Debug)]
pub struct PipeReader {
    pipes: usize,
    order: ByteOrder,
    draining: bool,
    cursor: usize,
    clean: bool,
}

impl View for PipeReader {
    type V = ReaderView;

    /// The state of the reader.
    closed spec fn view(&self) -> ReaderView {
        ReaderView {
            pipes: self.pipes as nat,
            order: self.order,
            draining: self.draining,
            cursor: self.cursor as nat,
            clean: self.clean,
        }
    }
}

impl PipeReader {
    /// The invariant of the reader.
    pub open spec fn wf(&self) -> bool {
        self@.wf()
    }

    /// A reader of `pipes` pipes whose frames have their words in `order`.
    pub fn with_order(pipes: usize, order: ByteOrder) -> (r: Self)
        ensures
            r.wf(),
            r@ == ReaderView::start(pipes as nat, order),
    {
        PipeReader { pipes, order, draining: false, cursor: pipes, clean: false }
    }

    /// A reader of `pipes` pipes whose frames have their words in the byte
    /// order of this machine.
    pub fn new(pipes: usize) -> (r: Self)
        ensures
            r.wf(),
            r@ == ReaderView::start(pipes as nat, r@.order),
    {
        PipeReader::with_order(pipes, native_order())
    }

    /// Says what the reader is to do next, and moves the pass on to the pipe
    /// of that action.
    pub fn next_action(&mut self) -> (r: ReaderAction)
        requires
            old(self).wf(),
        ensures
            final(self).wf(),
            r == old(self)@.action(),
            final(self)@ == old(self)@.settled(),
            final(self)@.action() == r,
            r is Read ==> final(self)@.at_read(),
            r is CheckRunning ==> final(self)@.at_check(),
    {
        if self.cursor < self.pipes {
            ReaderAction::Read { pipe: self.cursor }
        } else if !self.draining {
            ReaderAction::CheckRunning
        } else if self.clean {
            self.cursor = 0;
            self.clean = false;
            ReaderAction::Read { pipe: 0 }
        } else {
            ReaderAction::Close
        }
    }

    /// Takes note of whether the executor still runs, and begins a pass.
    pub fn running(&mut self, flag: bool)
        requires
            old(self).wf(),
            old(self)@.at_check(),
        ensures
            final(self).wf(),
            final(self)@ == old(self)@.after_check(flag),
    {
        self.draining = !flag;
        self.cursor = 0;
        self.clean = false;
    }

    /// Takes note of an attempt to read the pipe at the cursor, and decodes
    /// the frame if one was read. `None` stands for a read that gave no whole
    /// frame.
    ///
    /// Returns the event to send on, or `None` where there was no frame or
    /// the frame encodes no event.
    pub fn frame(&mut self, frame: Option<&[u8; FRAME_SIZE]>) -> (r: Option<ProcessInfo>)
        requires
            old(self).wf(),
            old(self)@.at_read(),
        ensures
            final(self).wf(),
            final(self)@ == old(self)@.after_read(frame is Some),
            match frame {
                Some(bytes) => match r {
                    Some(info) => spec_decode(bytes@, old(self)@.order) == Some(info@),
                    None => spec_decode(bytes@, old(self)@.order) is None,
                },
                None => r is None,
            },
    {
        self.cursor = self.cursor + 1;
        match frame {
            Some(bytes) => {
                if self.draining {
                    self.clean = true;
                }
                decode_frame(bytes, self.order)
            },
            None => None,
        }
    }

    /// Takes note that an event could not be sent on: the current pass ends.
    pub fn send_failed(&mut self)
        requires
            old(self).wf(),
        ensures
            final(self).wf(),
            final(self)@ == old(self)@.after_send_failure(),
    {
        self.cursor = self.pipes;
    }
}

/// The number of frames that wait in the pipes.
pub open spec fn waiting(pipes: Seq<Seq<Seq<u8>>>) -> nat
    decreases pipes.len(),
{
    if pipes.len() == 0 {
        0
    } else {
        waiting(pipes.drop_last()) + pipes.last().len()
    }
}

/// Taking the first frame off a pipe leaves one frame less waiting.
pub proof fn lemma_waiting_take(pipes: Seq<Seq<Seq<u8>>>, pipe: int)
    requires
        0 <= pipe < pipes.len(),
        pipes[pipe].len() > 0,
    ensures
        waiting(pipes.update(pipe, pipes[pipe].drop_first())) + 1 == waiting(pipes),
    decreases pipes.len(),
{
    let taken = pipes.update(pipe, pipes[pipe].drop_first());
    if pipe == pipes.len() - 1 {
        assert(taken.drop_last() =~= pipes.drop_last());
    } else {
        lemma_waiting_take(pipes.drop_last(), pipe);
        assert(taken.drop_last() =~= pipes.drop_last().update(pipe, pipes[pipe].drop_first()));
    }
}

/// What the reader has read from each pipe by the time it closes, when it
/// drains pipes whose writing ends are closed: a pipe that holds a frame
/// gives its first frame to a read, and an empty pipe gives none, for good.
///
/// `pipes` holds the frames that wait in each pipe, `read` what the reader
/// has read from each so far.
pub open spec fn drain(
    reader: ReaderView,
    pipes: Seq<Seq<Seq<u8>>>,
    read: Seq<Seq<Seq<u8>>>,
) -> Seq<Seq<Seq<u8>>>
    decreases
            waiting(pipes),
            if reader.clean {
                1nat
            } else {
                0nat
            },
            reader.pipes - reader.cursor,
{
    if !reader.wf() || !reader.draining || pipes.len() != reader.pipes {
        read
    } else {
        match reader.action() {
            ReaderAction::Read { pipe } => {
                let at = reader.settled();
                if pipes[pipe as int].len() > 0 {
                    proof {
                        lemma_waiting_take(pipes, pipe as int);
                    }
                    drain(
                        at.after_read(true),
                        pipes.update(pipe as int, pipes[pipe as int].drop_first()),
                        read.update(pipe as int, read[pipe as int].push(pipes[pipe as int][0])),
                    )
                } else {
                    drain(at.after_read(false), pipes, read)
                }
            },
            _ => read,
        }
    }
}

/// No frame is lost: when the reader drains pipes whose writing ends are
/// closed, it closes only after it has read every frame of every pipe, and
/// it has read the frames of each pipe in their order.
///
/// The reader has, in the current pass, found every pipe before the cursor
/// empty unless it has read a frame in this pass.
pub proof fn lemma_drain_reads_all(
    reader: ReaderView,
    pipes: Seq<Seq<Seq<u8>>>,
    read: Seq<Seq<Seq<u8>>>,
)
    requires
        reader.wf(),
        reader.draining,
        pipes.len() == reader.pipes,
        read.len() == reader.pipes,
        !reader.clean ==> forall|i: int| 0 <= i < reader.cursor ==> (#[trigger] pipes[i]).len() == 0,
    ensures
        drain(reader, pipes, read).len() == reader.pipes,
        forall|i: int|
            0 <= i < reader.pipes ==> #[trigger] drain(reader, pipes, read)[i] == read[i] + pipes[i],
    decreases
            waiting(pipes),
            if reader.clean {
                1nat
            } else {
                0nat
            },
            reader.pipes - reader.cursor,
{
    match reader.action() {
        ReaderAction::Read { pipe } => {
            let at = reader.settled();
            let p = pipe as int;
            if pipes[p].len() > 0 {
                lemma_waiting_take(pipes, p);
                let pipes2 = pipes.update(p, pipes[p].drop_first());
                let read2 = read.update(p, read[p].push(pipes[p][0]));
                lemma_drain_reads_all(at.after_read(true), pipes2, read2);
                assert forall|i: int| 0 <= i < reader.pipes implies #[trigger] drain(
                    reader,
                    pipes,
                    read,
                )[i] == read[i] + pipes[i] by {
                    if i == p {
                        assert(read2[p] + pipes2[p] =~= read[p] + pipes[p]);
                    } else {
                        assert(read2[i] == read[i] && pipes2[i] == pipes[i]);
                    }
                }
            } else {
                lemma_drain_reads_all(at.after_read(false), pipes, read);
            }
        },
        _ => {
            assert forall|i: int| 0 <= i < reader.pipes implies #[trigger] drain(
                reader,
                pipes,
                read,
            )[i] == read[i] + pipes[i] by {
                assert(pipes[i].len() == 0);
                assert(read[i] + pipes[i] =~= read[i]);
            }
        },
    }
}

/// From the moment the executor has stopped, the reader reads the frames
/// that wait in the pipes, all of them and those of each pipe in order,
/// before it closes.
pub proof fn lemma_no_lost_frames(reader: ReaderView, pipes: Seq<Seq<Seq<u8>>>)
    requires
        reader.wf(),
        reader.at_check(),
        pipes.len() == reader.pipes,
    ensures
        drain(
            reader.after_check(false),
            pipes,
            Seq::new(reader.pipes, |i: int| Seq::<Seq<u8>>::empty()),
        ) == pipes,
{
    let read = Seq::new(reader.pipes, |i: int| Seq::<Seq<u8>>::empty());
    let start = reader.after_check(false);
    lemma_drain_reads_all(start, pipes, read);
    assert forall|i: int| 0 <= i < reader.pipes implies drain(start, pipes, read)[i]
        == pipes[i] by {
        assert(read[i] + pipes[i] =~= pipes[i]);
    }
    assert(drain(start, pipes, read) =~= pipes);
}

} // verus!
