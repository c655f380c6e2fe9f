//! Newline-delimited frames of the Agent IPC connection: how buffered bytes
//! are cut into frames, and when a line is too long to keep reading.
use vstd::prelude::*;

verus! {

/// The longest line the broker buffers before refusing the connection.
pub const MAX_IPC_LINE_BYTES: usize = 393216;

/// The position of the first newline byte.
pub open spec fn first_newline(bytes: Seq<u8>) -> Option<int> {
    if exists|k: int| 0 <= k < bytes.len() && bytes[k] == 10u8 {
        Some(choose|k: int| 0 <= k < bytes.len() && bytes[k] == 10u8 && forall|j: int| 0 <= j < k ==> bytes[j] != 10u8)
    } else {
        None
    }
}

/// What the buffered bytes give.
#[derive(Debug)]
pub enum FrameStep {
    /// A complete frame, without its newline.
    Frame(Vec<u8>),
    /// No newline yet, and more than `MAX_IPC_LINE_BYTES` bytes buffered.
    TooLarge,
    /// No newline yet: more bytes are needed.
    NeedMore,
}

/// The bytes received but not yet returned as frames.
#[derive(Debug)]
pub struct AgentFrameReader {
    pub pending: Vec<u8>,
}

proof fn lemma_first_newline(bytes: Seq<u8>, k: int)
    requires
        0 <= k < bytes.len(),
        bytes[k] == 10u8,
        forall|j: int| 0 <= j < k ==> bytes[j] != 10u8,
    ensures
        first_newline(bytes) == Some(k),
{
    let c = choose|c: int| 0 <= c < bytes.len() && bytes[c] == 10u8 && forall|j: int| 0 <= j < c ==> bytes[j] != 10u8;
    assert(c == k) by {
        if c < k {
            assert(bytes[c] != 10u8);
        } else if c > k {
            assert(bytes[k] != 10u8);
        }
    }
}

proof fn lemma_first_newline_exists(bytes: Seq<u8>, k: int)
    requires
        0 <= k < bytes.len(),
        bytes[k] == 10u8,
    ensures
        exists|c: int| 0 <= c < bytes.len() && bytes[c] == 10u8 && forall|j: int| 0 <= j < c ==> bytes[j] != 10u8,
    decreases k,
{
    if exists|j: int| 0 <= j < k && bytes[j] == 10u8 {
        let j = choose|j: int| 0 <= j < k && bytes[j] == 10u8;
        lemma_first_newline_exists(bytes, j);
    } else {
        assert(forall|j: int| 0 <= j < k ==> bytes[j] != 10u8);
    }
}

impl AgentFrameReader {
    /// A reader with nothing buffered.
    pub fn new() -> (r: Self)
        ensures
            r.pending@ == Seq::<u8>::empty(),
    {
        AgentFrameReader { pending: Vec::new() }
    }

    /// Buffers bytes read from the connection.
    pub fn push_bytes(&mut self, chunk: &[u8])
        ensures
            final(self).pending@ == old(self).pending@ + chunk@,
    {
        let mut i: usize = 0;
        while i < chunk.len()
            invariant
                i <= chunk.len(),
                self.pending@ == old(self).pending@ + chunk@.take(i as int),
            decreases chunk.len() - i,
        {
            self.pending.push(chunk[i]);
            assert(self.pending@ =~= old(self).pending@ + chunk@.take(i + 1));
            i += 1;
        }
        assert(chunk@.take(chunk@.len() as int) =~= chunk@);
    }

    /// Takes the next frame from the buffered bytes: the bytes before the
    /// first newline, which is dropped with them; without a newline, a buffer
    /// over `MAX_IPC_LINE_BYTES` is too large and a shorter one needs more bytes.
    pub fn next_frame(&mut self) -> (r: FrameStep)
        ensures
            match first_newline(old(self).pending@) {
                Some(k) => r matches FrameStep::Frame(f) && f@ == old(self).pending@.take(k)
                    && final(self).pending@ == old(self).pending@.skip(k + 1),
                None => final(self).pending@ == old(self).pending@ && if old(self).pending@.len() > MAX_IPC_LINE_BYTES {
                    r is TooLarge
                } else {
                    r is NeedMore
                },
            },
    {
        let mut k: usize = 0;
        while k < self.pending.len()
            invariant
                k <= self.pending.len(),
                self.pending@ == old(self).pending@,
                forall|j: int| 0 <= j < k ==> self.pending@[j] != 10u8,
            decreases self.pending.len() - k,
        {
            if self.pending[k] == 10u8 {
                proof {
                    lemma_first_newline(self.pending@, k as int);
                }
                let mut frame: Vec<u8> = Vec::new();
                let mut rest: Vec<u8> = Vec::new();
                let mut i: usize = 0;
                while i < self.pending.len()
                    invariant
                        k < self.pending.len(),
                        i <= self.pending.len(),
                        self.pending@ == old(self).pending@,
                        frame@ == self.pending@.take(if i < k { i as int } else { k as int }),
                        rest@ == if i <= k + 1 { Seq::<u8>::empty() } else { self.pending@.subrange(k + 1, i as int) },
                    decreases self.pending.len() - i,
                {
                    if i < k {
                        frame.push(self.pending[i]);
                        assert(frame@ =~= self.pending@.take(i + 1));
                    } else if i > k {
                        rest.push(self.pending[i]);
                        assert(rest@ =~= self.pending@.subrange(k + 1, i + 1));
                    }
                    i += 1;
                }
                assert(rest@ =~= self.pending@.skip(k + 1));
                self.pending = rest;
                return FrameStep::Frame(frame);
            }
            k += 1;
        }
        assert(!exists|j: int| 0 <= j < self.pending@.len() && self.pending@[j] == 10u8);
        if self.pending.len() > MAX_IPC_LINE_BYTES {
            FrameStep::TooLarge
        } else {
            FrameStep::NeedMore
        }
    }
}

/// Cutting a frame loses no byte: the frame, its newline and the bytes left
/// make up what was buffered, and the frame holds no newline.
pub proof fn law_frame_cut_loses_no_byte(buffered: Seq<u8>)
    requires
        first_newline(buffered) is Some,
    ensures
        ({
            let k = first_newline(buffered)->0;
            &&& buffered.take(k) + seq![10u8] + buffered.skip(k + 1) == buffered
            &&& forall|j: int| 0 <= j < buffered.take(k).len() ==> buffered.take(k)[j] != 10u8
        }),
{
    let w = choose|w: int| 0 <= w < buffered.len() && buffered[w] == 10u8;
    lemma_first_newline_exists(buffered, w);
    let k = first_newline(buffered)->0;
    assert(0 <= k < buffered.len() && buffered[k] == 10u8);
    assert(buffered.take(k) + seq![10u8] + buffered.skip(k + 1) =~= buffered);
}


proof fn lemma_first_newline_props(bytes: Seq<u8>)
    ensures
        first_newline(bytes) matches Some(k) ==> 0 <= k < bytes.len() && bytes[k] == 10u8
            && forall|j: int| 0 <= j < k ==> bytes[j] != 10u8,
        first_newline(bytes) is None ==> forall|j: int| 0 <= j < bytes.len() ==> bytes[j] != 10u8,
{
    if exists|k: int| 0 <= k < bytes.len() && bytes[k] == 10u8 {
        let w = choose|k: int| 0 <= k < bytes.len() && bytes[k] == 10u8;
        lemma_first_newline_exists(bytes, w);
    }
}

/// The frames that repeated `next_frame` calls cut from buffered bytes, in order.
pub open spec fn frames(bytes: Seq<u8>) -> Seq<Seq<u8>>
    decreases bytes.len(),
{
    match first_newline(bytes) {
        Some(k) => if 0 <= k < bytes.len() {
            seq![bytes.take(k)] + frames(bytes.skip(k + 1))
        } else {
            Seq::empty()
        },
        None => Seq::empty(),
    }
}

/// The bytes left buffered once every complete frame is cut.
pub open spec fn unframed_rest(bytes: Seq<u8>) -> Seq<u8>
    decreases bytes.len(),
{
    match first_newline(bytes) {
        Some(k) => if 0 <= k < bytes.len() {
            unframed_rest(bytes.skip(k + 1))
        } else {
            bytes
        },
        None => bytes,
    }
}

/// Frames written back with a newline after each.
pub open spec fn joined_frames(fs: Seq<Seq<u8>>) -> Seq<u8>
    decreases fs.len(),
{
    if fs.len() == 0 {
        Seq::empty()
    } else {
        fs[0] + seq![10u8] + joined_frames(fs.drop_first())
    }
}

/// Reading frame after frame returns each line once, in order: the frames,
/// each followed by its newline, then the bytes left make up what was
/// buffered; no frame holds a newline, and neither do the bytes left.
pub proof fn law_frames_return_each_line_once(buffered: Seq<u8>)
    ensures
        joined_frames(frames(buffered)) + unframed_rest(buffered) == buffered,
        forall|i: int, j: int| 0 <= i < frames(buffered).len() && 0 <= j < frames(buffered)[i].len()
            ==> #[trigger] frames(buffered)[i][j] != 10u8,
        forall|j: int| 0 <= j < unframed_rest(buffered).len() ==> #[trigger] unframed_rest(buffered)[j] != 10u8,
    decreases buffered.len(),
{
    lemma_first_newline_props(buffered);
    match first_newline(buffered) {
        Some(k) => {
            let rest = buffered.skip(k + 1);
            law_frames_return_each_line_once(rest);
            let fs = frames(buffered);
            assert(fs.drop_first() =~= frames(rest));
            assert(fs[0] == buffered.take(k));
            assert(joined_frames(fs) == buffered.take(k) + seq![10u8] + joined_frames(frames(rest)));
            assert(joined_frames(fs) + unframed_rest(buffered)
                =~= buffered.take(k) + seq![10u8] + (joined_frames(frames(rest)) + unframed_rest(rest)));
            assert(buffered.take(k) + seq![10u8] + rest =~= buffered);
            assert forall|i: int, j: int| 0 <= i < fs.len() && 0 <= j < fs[i].len() implies #[trigger] fs[i][j] != 10u8 by {
                if i > 0 {
                    assert(fs[i] == frames(rest)[i - 1]);
                }
            }
        },
        None => {},
    }
}


/// Bytes that arrive in pieces give the same frames as when they arrive at
/// once: the frames of what was buffered, then those of what was left
/// unframed followed by the new bytes; and the same bytes stay buffered.
pub proof fn law_frames_do_not_depend_on_chunks(buffered: Seq<u8>, chunk: Seq<u8>)
    ensures
        frames(buffered + chunk) == frames(buffered) + frames(unframed_rest(buffered) + chunk),
        unframed_rest(buffered + chunk) == unframed_rest(unframed_rest(buffered) + chunk),
    decreases buffered.len(),
{
    lemma_first_newline_props(buffered);
    match first_newline(buffered) {
        Some(k) => {
            let all = buffered + chunk;
            assert(all[k] == 10u8);
            assert forall|j: int| 0 <= j < k implies all[j] != 10u8 by {
                assert(all[j] == buffered[j]);
            }
            lemma_first_newline(all, k);
            let rest = buffered.skip(k + 1);
            law_frames_do_not_depend_on_chunks(rest, chunk);
            assert(all.skip(k + 1) =~= rest + chunk);
            assert(all.take(k) =~= buffered.take(k));
            assert(frames(all) == seq![all.take(k)] + frames(all.skip(k + 1)));
            assert(frames(buffered) == seq![buffered.take(k)] + frames(rest));
            assert(frames(all) =~= frames(buffered) + frames(unframed_rest(buffered) + chunk));
        },
        None => {
            assert(frames(buffered) =~= Seq::<Seq<u8>>::empty());
            assert(frames(buffered) + frames(unframed_rest(buffered) + chunk) =~= frames(buffered + chunk));
        },
    }
}

} // verus!
