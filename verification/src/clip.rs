//! Clip readers of the native mixer. A clip's PCM is held in memory, either
//! as one block or as the parts of a composite clip that play one after the
//! other, and a playing instance reads it block by block.
//!
//! A single block of memory behaves exactly as a composite of one part, so
//! both are one reader here, modelled by `PcmModel`.
use vstd::prelude::*;

verus! {

/// What a reader holds and where it stands: the bytes of each part, a
/// cursor into each part, and the part being read.
pub struct PcmModel {
    pub parts: Seq<Seq<u8>>,
    pub cursors: Seq<int>,
    pub index: int,
}

impl PcmModel {
    /// Cursors stay inside their parts, and the current part exists unless
    /// there is none.
    pub open spec fn wf(self) -> bool {
        &&& self.cursors.len() == self.parts.len()
        &&& forall|i: int|
            0 <= i < self.parts.len() ==> 0 <= #[trigger] self.cursors[i] <= self.parts[i].len()
        &&& if self.parts.len() == 0 {
            self.index == 0
        } else {
            0 <= self.index < self.parts.len()
        }
    }

    /// Bytes left in the current part.
    pub open spec fn available(self) -> int {
        if 0 <= self.index < self.parts.len() {
            self.parts[self.index].len() - self.cursors[self.index]
        } else {
            0
        }
    }

    /// How many bytes a read of `requested` bytes gives: a read never
    /// crosses from one part into the next.
    pub open spec fn read_count(self, requested: nat) -> nat {
        if requested <= self.available() {
            requested
        } else if self.available() <= 0 {
            0
        } else {
            self.available() as nat
        }
    }

    /// The bytes that such a read gives.
    pub open spec fn read_bytes(self, requested: nat) -> Seq<u8> {
        if 0 <= self.index < self.parts.len() {
            let c = self.cursors[self.index];
            self.parts[self.index].subrange(c, c + self.read_count(requested))
        } else {
            Seq::empty()
        }
    }

    /// The reader after such a read. The cursor moves past what was read;
    /// a part that ran out before the request was full hands over to the
    /// next part, rewound, without reading from it yet.
    pub open spec fn after_read(self, requested: nat) -> PcmModel {
        if 0 <= self.index < self.parts.len() {
            let k = self.read_count(requested);
            let moved = self.cursors.update(self.index, self.cursors[self.index] + k);
            if k < requested && self.index + 1 < self.parts.len() {
                PcmModel {
                    parts: self.parts,
                    cursors: moved.update(self.index + 1, 0),
                    index: self.index + 1,
                }
            } else {
                PcmModel { parts: self.parts, cursors: moved, index: self.index }
            }
        } else {
            self
        }
    }

    /// The reader rewound to the start of its first part.
    pub open spec fn rewound(self) -> PcmModel {
        PcmModel { parts: self.parts, cursors: Seq::new(self.parts.len(), |i: int| 0int), index: 0 }
    }

    /// What a rewind reports: whether the first part holds a byte.
    pub open spec fn rewinds_to_data(self) -> bool {
        self.parts.len() > 0 && self.parts[0].len() > 0
    }

    /// A looping instance's read of `requested` bytes: it reads until the
    /// request is full, rewinding whenever a read gives nothing, and stops
    /// where a rewind reports no data. `retried` says that the reader was
    /// rewound since the last read that gave bytes.
    pub open spec fn looping_read(self, requested: nat, retried: bool) -> (Seq<u8>, PcmModel)
        decreases requested, (if retried { 0int } else { 1int }),
    {
        let k = self.read_count(requested);
        let next = self.after_read(requested);
        if k == 0 {
            let back = next.rewound();
            if !next.rewinds_to_data() || requested == 0 || retried {
                (Seq::empty(), back)
            } else {
                back.looping_read(requested, true)
            }
        } else if k >= requested {
            (self.read_bytes(requested), next)
        } else {
            let rest = next.looping_read((requested - k) as nat, false);
            (self.read_bytes(requested) + rest.0, rest.1)
        }
    }
}

/// A read keeps the model well formed and gives `read_count` bytes.
pub proof fn lemma_read_keeps_wf(m: PcmModel, requested: nat)
    requires
        m.wf(),
    ensures
        m.after_read(requested).wf(),
        m.read_bytes(requested).len() == m.read_count(requested),
        m.read_count(requested) <= requested,
        m.after_read(requested).parts == m.parts,
{
    let n = m.after_read(requested);
    if 0 <= m.index < m.parts.len() {
        assert forall|i: int| 0 <= i < n.parts.len() implies 0 <= #[trigger] n.cursors[i]
            <= n.parts[i].len() by {
            assert(0 <= m.cursors[i] <= m.parts[i].len());
        }
    }
}

/// A rewound model is well formed.
pub proof fn lemma_rewound_wf(m: PcmModel)
    requires
        m.wf(),
    ensures
        m.rewound().wf(),
        m.rewound().parts == m.parts,
{
}

/// A looping read gives at most what was asked for and leaves the model
/// well formed; where the first part holds a byte it gives exactly that.
proof fn lemma_looping_read(m: PcmModel, requested: nat, retried: bool)
    requires
        m.wf(),
        retried ==> m.index == 0 && m.cursors[0] == 0 && m.rewinds_to_data() && requested > 0,
    ensures
        m.looping_read(requested, retried).0.len() <= requested,
        m.looping_read(requested, retried).1.wf(),
        m.looping_read(requested, retried).1.parts == m.parts,
        m.rewinds_to_data() ==> m.looping_read(requested, retried).0.len() == requested,
    decreases requested, (if retried { 0int } else { 1int }),
{
    lemma_read_keeps_wf(m, requested);
    let k = m.read_count(requested);
    let next = m.after_read(requested);
    lemma_rewound_wf(next);
    if k == 0 {
        if !next.rewinds_to_data() || requested == 0 || retried {
        } else {
            lemma_looping_read(next.rewound(), requested, true);
        }
    } else if k >= requested {
    } else {
        lemma_looping_read(next, (requested - k) as nat, false);
    }
}

/// A looping instance whose clip starts with a byte always fills its
/// block, however far into the clip it stands.
pub proof fn law_looping_instance_fills_its_block(m: PcmModel, requested: nat)
    requires
        m.wf(),
        m.rewinds_to_data(),
    ensures
        m.looping_read(requested, false).0.len() == requested,
{
    lemma_looping_read(m, requested, false);
}

/// A clip of one block whose rewind reports no data can never give a
/// byte: every read gives nothing and leaves it as it was.
pub proof fn law_empty_block_stays_silent(m: PcmModel, requested: nat)
    requires
        m.wf(),
        m.parts.len() == 1,
        !m.rewinds_to_data(),
    ensures
        m.read_count(requested) == 0,
        m.read_bytes(requested) == Seq::<u8>::empty(),
        m.after_read(requested) == m,
{
    assert(m.cursors[0] == 0);
    assert(m.read_bytes(requested) =~= Seq::<u8>::empty());
    assert(m.after_read(requested).cursors =~= m.cursors);
}

/// PCM bytes read part by part.
pub struct PcmReader {
    parts: Vec<Vec<u8>>,
    cursors: Vec<usize>,
    index: usize,
}

impl PcmReader {
    /// What the reader holds and where it stands.
    pub closed spec fn model(&self) -> PcmModel {
        PcmModel {
            parts: self.parts@.map_values(|p: Vec<u8>| p@),
            cursors: self.cursors@.map_values(|c: usize| c as int),
            index: self.index as int,
        }
    }

    pub closed spec fn wf(&self) -> bool {
        self.model().wf()
    }

    /// A reader over one block of PCM, at its start.
    pub fn memory(bytes: Vec<u8>) -> (reader: Self)
        ensures
            reader.wf(),
            reader.model() == (PcmModel { parts: seq![bytes@], cursors: seq![0int], index: 0 }),
    {
        let ghost view = bytes@;
        let mut parts: Vec<Vec<u8>> = Vec::new();
        parts.push(bytes);
        let mut cursors: Vec<usize> = Vec::new();
        cursors.push(0);
        let reader = PcmReader { parts, cursors, index: 0 };
        assert(reader.model().parts =~= seq![view]);
        assert(reader.model().cursors =~= seq![0int]);
        reader
    }

    /// A reader over the parts of a composite clip, at the start of the
    /// first part.
    pub fn sequence(parts: Vec<Vec<u8>>) -> (reader: Self)
        ensures
            reader.wf(),
            reader.model() == (PcmModel {
                parts: parts@.map_values(|p: Vec<u8>| p@),
                cursors: Seq::new(parts@.len(), |i: int| 0int),
                index: 0,
            }),
    {
        let mut cursors: Vec<usize> = Vec::new();
        let count = parts.len();
        for i in 0..count
            invariant
                count == parts.len(),
                cursors.len() == i,
                forall|j: int| 0 <= j < i ==> cursors@[j] == 0,
        {
            cursors.push(0);
        }
        let reader = PcmReader { parts, cursors, index: 0 };
        assert(reader.model().cursors =~= Seq::new(reader.parts@.len(), |i: int| 0int));
        reader
    }

    /// Appends what a read of `requested` bytes gives to `output` and
    /// returns how many bytes that was.
    pub fn read_into(&mut self, output: &mut Vec<u8>, requested: usize) -> (read: usize)
        requires
            old(self).wf(),
        ensures
            final(self).wf(),
            read == old(self).model().read_count(requested as nat),
            final(output)@ == old(output)@ + old(self).model().read_bytes(requested as nat),
            final(self).model() == old(self).model().after_read(requested as nat),
    {
        let ghost m = self.model();
        proof {
            lemma_read_keeps_wf(m, requested as nat);
        }
        if requested == 0 || self.index >= self.parts.len() {
            assert(m.read_bytes(requested as nat) =~= Seq::<u8>::empty());
            assert(output@ =~= old(output)@ + m.read_bytes(requested as nat));
            proof {
                if 0 <= m.index < m.parts.len() {
                    assert(m.after_read(requested as nat).cursors =~= m.cursors);
                }
            }
            return 0;
        }
        let i = self.index;
        let c = self.cursors[i];
        assert(m.parts[i as int] == self.parts@[i as int]@);
        assert(0 <= m.cursors[i as int] <= m.parts[i as int].len());
        let length = self.parts[i].len();
        let available = length - c;
        let count = if requested <= available {
            requested
        } else {
            available
        };
        let part: &Vec<u8> = &self.parts[i];
        let mut j: usize = 0;
        while j < count
            invariant
                j <= count,
                c + count <= part.len(),
                output@ == old(output)@ + part@.subrange(c as int, c + j),
            decreases count - j,
        {
            output.push(part[c + j]);
            j += 1;
            assert(part@.subrange(c as int, c + j) =~= part@.subrange(c as int, c + j - 1).push(
                part@[c + j - 1],
            ));
        }
        self.cursors.set(i, c + count);
        if count < requested && i + 1 < self.parts.len() {
            self.cursors.set(i + 1, 0);
            self.index = i + 1;
        }
        assert(self.model().parts =~= m.parts);
        assert(self.model().cursors =~= m.after_read(requested as nat).cursors);
        count
    }

    /// Rewinds every part and returns to the first; reports whether the
    /// first part holds a byte.
    pub fn reset(&mut self) -> (ok: bool)
        requires
            old(self).wf(),
        ensures
            final(self).wf(),
            final(self).model() == old(self).model().rewound(),
            ok == old(self).model().rewinds_to_data(),
    {
        let ghost m = self.model();
        self.index = 0;
        let count = self.cursors.len();
        for i in 0..count
            invariant
                count == self.cursors.len(),
                self.index == 0,
                self.parts@ == old(self).parts@,
                forall|j: int| 0 <= j < i ==> self.cursors@[j] == 0,
        {
            self.cursors.set(i, 0);
        }
        proof {
            lemma_rewound_wf(m);
        }
        assert(self.model().parts =~= m.parts);
        assert(self.model().cursors =~= m.rewound().cursors);
        self.parts.len() > 0 && self.parts[0].len() > 0
    }
}

/// A clip: its reader and the PCM format of its bytes.
pub struct NativeClip {
    pub reader: PcmReader,
    pub channels: u16,
    pub bits_per_sample: u16,
    pub sample_rate: u32,
}

impl NativeClip {
    /// The silent clip of an instance whose asset could not be decoded.
    pub fn empty() -> (clip: Self)
        ensures
            clip.reader.wf(),
            clip.reader.model() == (PcmModel {
                parts: seq![Seq::<u8>::empty()],
                cursors: seq![0int],
                index: 0,
            }),
            clip.channels == 0,
            clip.bits_per_sample == 0,
            clip.sample_rate == 0,
    {
        let reader = PcmReader::memory(Vec::new());
        NativeClip { reader, channels: 0, bits_per_sample: 0, sample_rate: 0 }
    }

    /// One instance's read for a block of `requested` bytes. A looping
    /// instance rereads from the start after its end until the block is
    /// full (`PcmModel::looping_read`); any other instance reads once, and
    /// has finished when that read gives nothing. Returns the bytes and
    /// whether the instance finished.
    pub fn read_playback(&mut self, looping: bool, requested: usize) -> (out: (Vec<u8>, bool))
        requires
            old(self).reader.wf(),
        ensures
            final(self).reader.wf(),
            final(self).channels == old(self).channels,
            final(self).bits_per_sample == old(self).bits_per_sample,
            final(self).sample_rate == old(self).sample_rate,
            out.0@.len() <= requested,
            looping ==> !out.1 && out.0@ == old(self).reader.model().looping_read(
                requested as nat,
                false,
            ).0 && final(self).reader.model() == old(self).reader.model().looping_read(
                requested as nat,
                false,
            ).1,
            !looping ==> out.0@ == old(self).reader.model().read_bytes(requested as nat)
                && out.1 == (old(self).reader.model().read_count(requested as nat) == 0)
                && final(self).reader.model() == old(self).reader.model().after_read(
                requested as nat,
            ),
    {
        let ghost initial = self.reader.model();
        let ghost total = initial.looping_read(requested as nat, false);
        proof {
            lemma_looping_read(initial, requested as nat, false);
            lemma_read_keeps_wf(initial, requested as nat);
        }
        let mut output: Vec<u8> = Vec::new();
        let ghost mut retried = false;
        loop
            invariant_except_break
                old(self).reader.model() == initial,
                self.reader.wf(),
                self.channels == old(self).channels,
                self.bits_per_sample == old(self).bits_per_sample,
                self.sample_rate == old(self).sample_rate,
                output.len() <= requested,
                looping ==> output@ + self.reader.model().looping_read(
                    (requested - output.len()) as nat,
                    retried,
                ).0 == total.0 && self.reader.model().looping_read(
                    (requested - output.len()) as nat,
                    retried,
                ).1 == total.1,
                !looping ==> output.len() == 0 && self.reader.model() == initial && !retried,
                retried ==> looping && self.reader.model().index == 0
                    && self.reader.model().cursors[0] == 0 && self.reader.model().rewinds_to_data()
                    && output.len() < requested,
            ensures
                self.reader.wf(),
                self.channels == old(self).channels,
                self.bits_per_sample == old(self).bits_per_sample,
                self.sample_rate == old(self).sample_rate,
                looping ==> output@ == total.0 && self.reader.model() == total.1,
                !looping ==> output@ == initial.read_bytes(requested as nat)
                    && initial.read_count(requested as nat) > 0 && self.reader.model()
                    == initial.after_read(requested as nat),
            decreases requested - output.len(), (if retried { 0int } else { 1int }),
        {
            let ghost before = self.reader.model();
            let remaining = requested - output.len();
            proof {
                lemma_read_keeps_wf(before, remaining as nat);
            }
            let read = self.reader.read_into(&mut output, remaining);
            if read == 0 {
                if looping {
                    if !self.reader.reset() {
                        assert(output@ =~= output@ + Seq::<u8>::empty());
                        break;
                    }
                    proof {
                        retried = true;
                    }
                } else {
                    assert(output@ =~= initial.read_bytes(requested as nat));
                    return (output, true);
                }
            } else {
                proof {
                    retried = false;
                }
            }
            if !looping || output.len() >= requested {
                if looping {
                    assert(output@ =~= output@ + Seq::<u8>::empty());
                }
                break;
            }
        }
        (output, false)
    }
}

} // verus!
