//! Domain names on the wire.
//!
//! A name is a run of labels, each a length byte and that many bytes, closed
//! by a zero length byte. A length byte with its two top bits set is no
//! length but, with the byte after it, a pointer: reading goes on at the
//! offset that the pointer gives. Reading follows pointers, at most
//! [`MAX_JUMPS`] of them; writing never makes one.

use vstd::prelude::*;
use vstd::string::StringSliceAdditionalSpecFns;
use vstd::slice::slice_subrange;
use crate::buffer::{
    BufferError,
    BufferView,
    BytePacketBuffer,
    Wire,
    lemma_followed_by,
    lemma_write_empty,
};
use crate::text::{decode_lossy, label_text, lowercase};

verus! {

/// Most jumps that reading one name may take.
pub const MAX_JUMPS: usize = 5;

/// Longest label that a length byte can announce.
pub const MAX_LABEL: usize = 63;

/// The byte that separates labels in a written-out name.
pub const DOT: u8 = 0x2E;

/// Where reading a name stands.
pub struct NameCursor {
    /// Position of the next length byte.
    pub pos: int,
    /// Jumps taken so far.
    pub jumps: nat,
    /// Text gathered so far.
    pub text: Seq<char>,
    /// Whether a label has been gathered, so that the next one follows a dot.
    pub started: bool,
    /// Where the first jump put the buffer's cursor, if there was a jump.
    pub moved: Option<int>,
}

/// What reading a name comes to.
pub struct NameRead {
    /// The text that was gathered, up to the failure if there was one.
    pub text: Seq<char>,
    /// Where the buffer's cursor was put, if it was moved.
    pub moved: Option<int>,
    /// Why reading stopped early, if it did.
    pub error: Option<BufferError>,
}

/// Whether a length byte is the first byte of a pointer.
pub open spec fn is_pointer(len: u8) -> bool {
    len >= 0xC0
}

/// The offset that the pointer `len`, `low` gives: fourteen bits, the upper
/// six from `len`.
pub open spec fn pointer_target(len: u8, low: u8) -> int {
    (len - 0xC0) * 0x100 + low
}

/// Reading a name with the walk at `c`, in a buffer that holds `bytes`.
pub open spec fn read_name_from(bytes: Seq<u8>, c: NameCursor) -> NameRead
    decreases MAX_JUMPS + 1 - c.jumps, 512 - c.pos,
{
    if c.jumps > MAX_JUMPS {
        NameRead { text: c.text, moved: c.moved, error: Some(BufferError::JumpLimitExceeded) }
    } else if c.pos < 0 || c.pos >= 512 {
        NameRead { text: c.text, moved: c.moved, error: Some(BufferError::EndOfBuffer) }
    } else {
        let len = bytes[c.pos];
        if is_pointer(len) {
            let moved = if c.moved is None {
                Some(c.pos + 2)
            } else {
                c.moved
            };
            if c.pos + 1 >= 512 {
                NameRead { text: c.text, moved, error: Some(BufferError::EndOfBuffer) }
            } else {
                read_name_from(
                    bytes,
                    NameCursor {
                        pos: pointer_target(len, bytes[c.pos + 1]),
                        jumps: c.jumps + 1,
                        text: c.text,
                        started: c.started,
                        moved,
                    },
                )
            }
        } else if len == 0 {
            NameRead {
                text: c.text,
                moved: if c.moved is None {
                    Some(c.pos + 1)
                } else {
                    c.moved
                },
                error: None,
            }
        } else {
            let text = if c.started {
                c.text.push('.')
            } else {
                c.text
            };
            if c.pos + 1 + len > 512 {
                NameRead { text, moved: c.moved, error: Some(BufferError::EndOfBuffer) }
            } else {
                read_name_from(
                    bytes,
                    NameCursor {
                        pos: c.pos + 1 + len,
                        jumps: c.jumps,
                        text: text + label_text(bytes.subrange(c.pos + 1, c.pos + 1 + len)),
                        started: true,
                        moved: c.moved,
                    },
                )
            }
        }
    }
}

impl BufferView {
    /// Reading the name at the cursor.
    pub open spec fn name(self) -> NameRead {
        read_name_from(
            self.bytes,
            NameCursor { pos: self.pos, jumps: 0, text: Seq::empty(), started: false, moved: None },
        )
    }

    /// The view after the name at the cursor was read.
    pub open spec fn after_name(self) -> BufferView {
        match self.name().moved {
            Some(pos) => self.at(pos),
            None => self,
        }
    }
}

impl NameRead {
    /// What the reader returns.
    pub open spec fn result(self) -> Result<(), BufferError> {
        match self.error {
            Some(e) => Err(e),
            None => Ok(()),
        }
    }
}

/// Whether `n` pointers follow one another from `pos` on, each pointing at
/// the next.
pub open spec fn pointer_chain(bytes: Seq<u8>, pos: int, n: nat) -> bool
    decreases n,
{
    n == 0 || (0 <= pos < 511 && is_pointer(bytes[pos]) && pointer_chain(
        bytes,
        pointer_target(bytes[pos], bytes[pos + 1]),
        (n - 1) as nat,
    ))
}

/// A walk that has one jump more behind it reads the same name, if it reads
/// one at all; and a walk that has jumped leaves the buffer's cursor where
/// the first jump put it.
pub proof fn lemma_spare_jump(bytes: Seq<u8>, a: NameCursor, b: NameCursor)
    requires
        a.pos == b.pos,
        a.text == b.text,
        a.started == b.started,
        a.jumps == b.jumps + 1,
        a.moved is Some,
        read_name_from(bytes, a).error is None,
    ensures
        read_name_from(bytes, b).error is None,
        read_name_from(bytes, b).text == read_name_from(bytes, a).text,
        read_name_from(bytes, a).moved == a.moved,
    decreases MAX_JUMPS + 1 - a.jumps, 512 - a.pos,
{
    if a.jumps > MAX_JUMPS || a.pos < 0 || a.pos >= 512 {
    } else {
        let len = bytes[a.pos];
        if is_pointer(len) {
            if a.pos + 1 < 512 {
                let target = pointer_target(len, bytes[a.pos + 1]);
                lemma_spare_jump(
                    bytes,
                    NameCursor { pos: target, jumps: a.jumps + 1, ..a },
                    NameCursor {
                        pos: target,
                        jumps: b.jumps + 1,
                        moved: if b.moved is None {
                            Some(b.pos + 2)
                        } else {
                            b.moved
                        },
                        ..b
                    },
                );
            }
        } else if len != 0 {
            let text = if a.started {
                a.text.push('.')
            } else {
                a.text
            };
            if a.pos + 1 + len <= 512 {
                let label = label_text(bytes.subrange(a.pos + 1, a.pos + 1 + len));
                lemma_spare_jump(
                    bytes,
                    NameCursor { pos: a.pos + 1 + len, text: text + label, started: true, ..a },
                    NameCursor { pos: b.pos + 1 + len, text: text + label, started: true, ..b },
                );
            }
        }
    }
}

/// A pointer stands for the name that it points at. Where a walk comes to
/// a pointer and reads a name through it, a walk that stands at the
/// pointer's target instead, with the same text gathered, reads the same
/// text: the name comes out as if the labels at the target stood in the
/// pointer's place. If the pointer is the first of the walk, the buffer's
/// cursor ends two bytes behind the place where the pointer began.
pub proof fn lemma_pointer_stands_for_target(bytes: Seq<u8>, c: NameCursor)
    requires
        0 <= c.pos < 511,
        is_pointer(bytes[c.pos]),
        read_name_from(bytes, c).error is None,
    ensures
        read_name_from(
            bytes,
            NameCursor { pos: pointer_target(bytes[c.pos], bytes[c.pos + 1]), ..c },
        ).error is None,
        read_name_from(
            bytes,
            NameCursor { pos: pointer_target(bytes[c.pos], bytes[c.pos + 1]), ..c },
        ).text == read_name_from(bytes, c).text,
        c.moved is None ==> read_name_from(bytes, c).moved == Some(c.pos + 2),
{
    let target = pointer_target(bytes[c.pos], bytes[c.pos + 1]);
    let through = NameCursor {
        pos: target,
        jumps: c.jumps + 1,
        moved: if c.moved is None {
            Some(c.pos + 2)
        } else {
            c.moved
        },
        ..c
    };
    lemma_spare_jump(bytes, through, NameCursor { pos: target, ..c });
}

/// A name that begins with a pointer is the name at the pointer's target.
/// Reading it gives the text that reading at the target gives, and the
/// cursor ends two bytes behind the place where the pointer began.
pub proof fn lemma_pointer_reads_target(v: BufferView)
    requires
        0 <= v.pos < 511,
        is_pointer(v.bytes[v.pos]),
        v.name().error is None,
    ensures
        v.at(pointer_target(v.bytes[v.pos], v.bytes[v.pos + 1])).name().error is None,
        v.name().text == v.at(pointer_target(v.bytes[v.pos], v.bytes[v.pos + 1])).name().text,
        v.after_name() == v.at(v.pos + 2),
{
    lemma_pointer_stands_for_target(
        v.bytes,
        NameCursor { pos: v.pos, jumps: 0, text: Seq::empty(), started: false, moved: None },
    );
}

/// A walk that still faces more pointers in a row than it may jump fails
/// for the jump limit, with no text read on the way.
pub proof fn lemma_chain_exceeds_limit(bytes: Seq<u8>, c: NameCursor)
    requires
        c.jumps <= MAX_JUMPS + 1,
        pointer_chain(bytes, c.pos, (MAX_JUMPS + 1 - c.jumps) as nat),
    ensures
        read_name_from(bytes, c).error == Some(BufferError::JumpLimitExceeded),
        read_name_from(bytes, c).text == c.text,
    decreases MAX_JUMPS + 1 - c.jumps,
{
    if c.jumps <= MAX_JUMPS {
        lemma_chain_exceeds_limit(
            bytes,
            NameCursor {
                pos: pointer_target(bytes[c.pos], bytes[c.pos + 1]),
                jumps: c.jumps + 1,
                moved: if c.moved is None {
                    Some(c.pos + 2)
                } else {
                    c.moved
                },
                ..c
            },
        );
    }
}

/// Six pointers in a row, each pointing at the next, are more than a name
/// may take: reading it fails for the jump limit, wherever the sixth points,
/// also where the pointers form a cycle.
pub proof fn lemma_six_pointers_fail(v: BufferView)
    requires
        pointer_chain(v.bytes, v.pos, 6),
    ensures
        v.name().error == Some(BufferError::JumpLimitExceeded),
        v.name().text == Seq::<char>::empty(),
        v.after_name() == v.at(v.pos + 2),
{
    let c = NameCursor { pos: v.pos, jumps: 0, text: Seq::empty(), started: false, moved: None };
    lemma_chain_exceeds_limit(v.bytes, c);
    let next = NameCursor {
        pos: pointer_target(v.bytes[v.pos], v.bytes[v.pos + 1]),
        jumps: 1,
        moved: Some(v.pos + 2),
        ..c
    };
    lemma_moved_is_kept(v.bytes, next);
}

/// Once a walk has jumped, the place where the first jump put the buffer's
/// cursor stays.
pub proof fn lemma_moved_is_kept(bytes: Seq<u8>, c: NameCursor)
    requires
        c.moved is Some,
    ensures
        read_name_from(bytes, c).moved == c.moved,
    decreases MAX_JUMPS + 1 - c.jumps, 512 - c.pos,
{
    if c.jumps > MAX_JUMPS || c.pos < 0 || c.pos >= 512 {
    } else {
        let len = bytes[c.pos];
        if is_pointer(len) {
            if c.pos + 1 < 512 {
                lemma_moved_is_kept(
                    bytes,
                    NameCursor {
                        pos: pointer_target(len, bytes[c.pos + 1]),
                        jumps: c.jumps + 1,
                        ..c
                    },
                );
            }
        } else if len != 0 {
            let text = if c.started {
                c.text.push('.')
            } else {
                c.text
            };
            if c.pos + 1 + len <= 512 {
                lemma_moved_is_kept(
                    bytes,
                    NameCursor {
                        pos: c.pos + 1 + len,
                        text: text + label_text(bytes.subrange(c.pos + 1, c.pos + 1 + len)),
                        started: true,
                        ..c
                    },
                );
            }
        }
    }
}

/// Where the label that starts at `from` ends in the written-out `name`:
/// at the next dot, or at the end of the name.
pub open spec fn label_end(name: Seq<u8>, from: int) -> int
    decreases name.len() - from,
{
    if from >= name.len() || name[from] == DOT {
        from
    } else {
        label_end(name, from + 1)
    }
}

/// The labels of the written-out `name` from `from` on: the stretches
/// between its dots. There is always one, if an empty one.
pub open spec fn labels_from(name: Seq<u8>, from: int) -> Seq<Seq<u8>>
    decreases name.len() - from,
{
    let end = label_end(name, from);
    if from < 0 || end >= name.len() {
        seq![name.subrange(from, end)]
    } else {
        proof {
            lemma_label_end_bounds(name, from);
        }
        seq![name.subrange(from, end)] + labels_from(name, end + 1)
    }
}

/// One label on the wire: its length and its bytes. A label of more than 63
/// bytes has no wire form.
pub open spec fn label_wire(label: Seq<u8>) -> Wire {
    if label.len() > MAX_LABEL {
        Wire::fail(BufferError::LabelTooLong)
    } else {
        Wire::of(seq![label.len() as u8] + label)
    }
}

/// Labels on the wire, one after the other, closed by a zero length byte.
pub open spec fn labels_wire(labels: Seq<Seq<u8>>) -> Wire
    decreases labels.len(),
{
    if labels.len() == 0 {
        Wire::of(seq![0u8])
    } else {
        label_wire(labels[0]).followed_by(labels_wire(labels.drop_first()))
    }
}

/// A written-out name on the wire.
pub open spec fn name_wire(name: Seq<u8>) -> Wire {
    labels_wire(labels_from(name, 0))
}

/// A label ends at or behind its start.
pub proof fn lemma_label_end_bounds(name: Seq<u8>, from: int)
    ensures
        from <= label_end(name, from),
        from <= name.len() ==> label_end(name, from) <= name.len(),
    decreases name.len() - from,
{
    if from < name.len() && name[from] != DOT {
        lemma_label_end_bounds(name, from + 1);
    }
}

/// The wire form of a first label and the labels after it.
proof fn lemma_labels_wire_step(label: Seq<u8>, rest: Seq<Seq<u8>>)
    ensures
        labels_wire(seq![label] + rest) == label_wire(label).followed_by(labels_wire(rest)),
{
    assert((seq![label] + rest).drop_first() =~= rest);
}

/// The end of the label that starts at `from`.
fn find_label_end(name: &[u8], from: usize) -> (end: usize)
    requires
        from <= name@.len(),
    ensures
        end == label_end(name@, from as int),
        from <= end <= name@.len(),
{
    let n = name.len();
    let mut end = from;
    while end < n && name[end] != DOT
        invariant
            n == name@.len(),
            from <= end <= n,
            label_end(name@, end as int) == label_end(name@, from as int),
        decreases n - end,
    {
        end += 1;
    }
    end
}

impl BytePacketBuffer {
    /// Writes one label: its length, then its bytes.
    pub fn write_label(&mut self, label: &[u8]) -> (r: Result<(), BufferError>)
        ensures
            r == old(self)@.outcome(label_wire(label@)),
            final(self)@ == old(self)@.emit(label_wire(label@)),
    {
        let len = label.len();
        if len > MAX_LABEL {
            proof {
                lemma_write_empty(self@);
            }
            return Err(BufferError::LabelTooLong);
        }
        proof {
            let head = Wire::of(seq![len as u8]);
            let body = Wire::of(label@);
            lemma_followed_by(self@, head, body);
        }
        self.write_u8(len as u8)?;
        self.write_all(label)?;
        Ok(())
    }

    /// Writes `qname`, split at its dots, as labels and a closing zero.
    /// Fails for a label of more than 63 bytes, behind the labels before it.
    pub fn write_qname(&mut self, qname: &str) -> (r: Result<(), BufferError>)
        ensures
            r == old(self)@.outcome(name_wire(qname.spec_bytes())),
            final(self)@ == old(self)@.emit(name_wire(qname.spec_bytes())),
    {
        let name = qname.as_bytes();
        let n = name.len();
        let mut start: usize = 0;
        loop
            invariant
                n == name@.len(),
                name@ == qname.spec_bytes(),
                start <= n,
                self@.bytes.len() == 512,
                old(self)@.emit(name_wire(name@)) == self@.emit(
                    labels_wire(labels_from(name@, start as int)),
                ),
                old(self)@.outcome(name_wire(name@)) == self@.outcome(
                    labels_wire(labels_from(name@, start as int)),
                ),
            decreases n - start,
        {
            let end = find_label_end(name, start);
            let label = slice_subrange(name, start, end);
            let ghost rest = if end >= n {
                Seq::<Seq<u8>>::empty()
            } else {
                labels_from(name@, end + 1)
            };
            proof {
                lemma_labels_wire_step(label@, rest);
                lemma_followed_by(self@, label_wire(label@), labels_wire(rest));
            }
            self.write_label(label)?;
            if end >= n {
                self.write_u8(0)?;
                return Ok(());
            }
            start = end + 1;
        }
    }

    /// Reads the name at the cursor and appends it to `outstr`: its labels,
    /// lower-cased, with dots between them.
    ///
    /// Without a pointer the cursor ends behind the name. With one it ends
    /// behind the first pointer, wherever the name went on.
    pub fn read_qname(&mut self, outstr: &mut String) -> (r: Result<(), BufferError>)
        ensures
            r == old(self)@.name().result(),
            final(outstr)@ == old(outstr)@ + old(self)@.name().text,
            final(self)@ == old(self)@.after_name(),
    {
        let mut pos = self.pos();
        let mut started = false;
        let mut jumped = false;
        let mut jumps_performed: usize = 0;
        let ghost start = NameCursor {
            pos: pos as int,
            jumps: 0,
            text: Seq::empty(),
            started: false,
            moved: None,
        };
        let ghost mut c = start;
        loop
            invariant
                self@.bytes == old(self)@.bytes,
                self@.bytes.len() == 512,
                start == (NameCursor {
                    pos: old(self)@.pos,
                    jumps: 0,
                    text: Seq::empty(),
                    started: false,
                    moved: None,
                }),
                c.pos == pos,
                c.jumps == jumps_performed,
                c.started == started,
                c.moved is Some == jumped,
                jumps_performed <= MAX_JUMPS + 1,
                outstr@ == old(outstr)@ + c.text,
                self@.pos == (match c.moved {
                    Some(p) => p,
                    None => old(self)@.pos,
                }),
                read_name_from(self@.bytes, c) == read_name_from(self@.bytes, start),
            decreases MAX_JUMPS + 1 - jumps_performed, 512 - pos,
        {
            if jumps_performed > MAX_JUMPS {
                return Err(BufferError::JumpLimitExceeded);
            }
            let len = self.get(pos)?;
            assert(len & 0xC0 == 0xC0 <==> len >= 0xC0) by (bit_vector);
            if (len & 0xC0) == 0xC0 {
                if !jumped {
                    self.seek(pos + 2)?;
                }
                proof {
                    c.moved = if c.moved is None {
                        Some(pos + 2)
                    } else {
                        c.moved
                    };
                }
                let b2 = self.get(pos + 1)? as u16;
                let offset = (((len as u16) ^ 0xC0) << 8) | b2;
                assert(len >= 0xC0 && b2 < 0x100 ==> (((len as u16) ^ 0xC0) << 8) | b2 == (len
                    - 0xC0) * 0x100 + b2) by (bit_vector);
                pos = offset as usize;
                jumped = true;
                jumps_performed += 1;
                proof {
                    c.pos = pos as int;
                    c.jumps = c.jumps + 1;
                }
                continue;
            } else {
                pos += 1;
                if len == 0 {
                    if !jumped {
                        self.seek(pos)?;
                    }
                    return Ok(());
                }
                if started {
                    outstr.append(".");
                    proof {
                        reveal_strlit(".");
                        c.text = c.text.push('.');
                    }
                }
                let range = self.get_range(pos, len as usize)?;
                let decoded = decode_lossy(range);
                let label = lowercase(decoded.as_str());
                outstr.append(label.as_str());
                started = true;
                pos += len as usize;
                proof {
                    c.text = c.text + label@;
                    c.pos = pos as int;
                    c.started = true;
                }
            }
        }
    }
}

} // verus!
