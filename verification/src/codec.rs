//! The record codec: the shape of the persisted record and the mapping
//! between a record and its line-oriented text form.
//!
//! The text form is: the timestamp's RFC 2822 rendering on the first line,
//! the address text on the second, and a third line holding the single
//! marker byte `1` exactly when the last notification succeeded. Absence of
//! the marker line means failure; so does a third line holding anything
//! else.

use vstd::prelude::*;

use crate::timestamp::Timestamp;
use crate::timestamp::is_rfc2822;
use crate::timestamp::lemma_rfc2822_injective;
use crate::timestamp::rfc2822_bytes;

verus! {

/// Whether a byte sequence can stand as one line of the check file: it
/// holds no line feed and no carriage return.
pub open spec fn line_clean(s: Seq<u8>) -> bool {
    forall|i: int| 0 <= i < s.len() ==> s[i] != 10u8 && s[i] != 13u8
}

/// The persisted record: the outcome of the most recent address check.
///
/// The address is held as its text form, a single clean line of bytes; the
/// codec asks nothing more of the pluggable address type than that its text
/// round-trips.
#[derive(Clone, Debug)]
pub struct AttemptRecord {
    /// When the address was observed.
    pub observed_at: Timestamp,
    /// The text form of the observed address.
    pub address: Vec<u8>,
    /// Whether the last change notification was confirmed delivered.
    pub last_notification_succeeded: bool,
}

impl View for AttemptRecord {
    type V = (Timestamp, Seq<u8>, bool);

    open spec fn view(&self) -> (Timestamp, Seq<u8>, bool) {
        (self.observed_at, self.address@, self.last_notification_succeeded)
    }
}

impl AttemptRecord {
    /// Whether the record can be written: the timestamp's fields are in
    /// range and the address text is a single clean line.
    pub open spec fn wf(self) -> bool {
        self.observed_at.wf() && line_clean(self.address@)
    }

    /// Runtime check of `wf`.
    pub fn check_well_formed(&self) -> (b: bool)
        ensures
            b == self.wf(),
    {
        self.observed_at.check_well_formed() && scan_line_clean(&self.address)
    }

    /// Encodes the record as its sequence of lines.
    pub fn encode_lines(&self) -> (lines: Vec<Vec<u8>>)
        requires
            self.wf(),
        ensures
            lines@.len() == encoded_lines(*self).len(),
            forall|i: int| 0 <= i < lines@.len() ==> lines@[i]@ == encoded_lines(*self)[i],
    {
        let mut lines: Vec<Vec<u8>> = Vec::new();
        lines.push(self.observed_at.to_rfc2822());
        lines.push(clone_bytes(&self.address));
        if self.last_notification_succeeded {
            let mut marker: Vec<u8> = Vec::new();
            marker.push(49);
            lines.push(marker);
        }
        lines
    }
}

/// The lines a record encodes to: the timestamp's rendering, the address
/// text, and the marker line `1` exactly when the notification succeeded.
pub open spec fn encoded_lines(r: AttemptRecord) -> Seq<Seq<u8>> {
    if r.last_notification_succeeded {
        seq![rfc2822_bytes(r.observed_at), r.address@, seq![49u8]]
    } else {
        seq![rfc2822_bytes(r.observed_at), r.address@]
    }
}

/// The views of a sequence of byte vectors.
pub open spec fn line_views(lines: Seq<Vec<u8>>) -> Seq<Seq<u8>> {
    Seq::new(lines.len(), |i: int| lines[i]@)
}

/// Why decoding failed.
#[derive(Clone, Copy, Debug, PartialEq, Eq, Structural)]
pub enum DecodeError {
    /// The timestamp or address line is missing or cannot be read back.
    MalformedRecord,
}

/// Whether a sequence of lines carries a record: at least two lines, the
/// first the RFC 2822 rendering of some well-formed timestamp, the second a
/// clean line of address text.
pub open spec fn lines_decodable(lines: Seq<Seq<u8>>) -> bool {
    lines.len() >= 2 && is_rfc2822(lines[0]) && line_clean(lines[1])
}

/// The timestamp a decodable sequence of lines carries.
pub open spec fn decoded_timestamp(lines: Seq<Seq<u8>>) -> Timestamp {
    choose|t: Timestamp| t.wf() && rfc2822_bytes(t) == lines[0]
}

/// The success flag a sequence of lines carries: true exactly when a third
/// line holds the single marker byte `1`.
pub open spec fn decoded_success(lines: Seq<Seq<u8>>) -> bool {
    lines.len() >= 3 && lines[2] == seq![49u8]
}

/// Decodes a sequence of lines back into a record.
///
/// Returns `Ok` if and only if the lines carry a record, and then returns
/// the record they carry; a missing or unreadable timestamp or address line
/// is `MalformedRecord`. A garbled third line is not an error: any third
/// line other than the exact marker leaves the success flag false.
pub fn decode_lines(lines: &Vec<Vec<u8>>) -> (r: Result<AttemptRecord, DecodeError>)
    ensures
        match r {
            Ok(rec) => {
                &&& lines_decodable(line_views(lines@))
                &&& rec.wf()
                &&& rec.observed_at == decoded_timestamp(line_views(lines@))
                &&& rfc2822_bytes(rec.observed_at) == lines@[0]@
                &&& rec.address@ == lines@[1]@
                &&& rec.last_notification_succeeded == decoded_success(line_views(lines@))
            },
            Err(e) => {
                &&& e == DecodeError::MalformedRecord
                &&& !lines_decodable(line_views(lines@))
            },
        },
{
    if lines.len() < 2 {
        return Err(DecodeError::MalformedRecord);
    }
    let observed_at = match Timestamp::parse_rfc2822(&lines[0]) {
        Some(t) => t,
        None => {
            return Err(DecodeError::MalformedRecord);
        },
    };
    if !scan_line_clean(&lines[1]) {
        return Err(DecodeError::MalformedRecord);
    }
    let succeeded = lines.len() >= 3 && is_marker(&lines[2]);
    let rec = AttemptRecord {
        observed_at,
        address: clone_bytes(&lines[1]),
        last_notification_succeeded: succeeded,
    };
    proof {
        assert(exists|t: Timestamp| t.wf() && rfc2822_bytes(t) == line_views(lines@)[0]) by {
            assert(observed_at.wf() && rfc2822_bytes(observed_at) == line_views(lines@)[0]);
        }
        let picked = decoded_timestamp(line_views(lines@));
        assert(picked.wf() && rfc2822_bytes(picked) == line_views(lines@)[0]);
        lemma_rfc2822_injective(observed_at, picked);
    }
    Ok(rec)
}

/// Whether a line holds no line feed and no carriage return.
pub fn scan_line_clean(v: &Vec<u8>) -> (r: bool)
    ensures
        r == line_clean(v@),
{
    let mut i: usize = 0;
    while i < v.len()
        invariant
            i <= v.len(),
            forall|j: int| 0 <= j < i ==> v@[j] != 10u8 && v@[j] != 13u8,
        decreases v.len() - i,
    {
        if v[i] == 10 || v[i] == 13 {
            return false;
        }
        i += 1;
    }
    true
}

/// Whether a line is exactly the success marker, the single byte `1`.
fn is_marker(v: &Vec<u8>) -> (r: bool)
    ensures
        r == (v@ == seq![49u8]),
{
    let r = v.len() == 1 && v[0] == 49;
    proof {
        if r {
            assert(v@ =~= seq![49u8]);
        } else if v@ == seq![49u8] {
            assert(v@.len() == 1);
            assert(v@[0] == 49u8);
        }
    }
    r
}

/// A fresh vector holding the same bytes.
pub(crate) fn clone_bytes(v: &Vec<u8>) -> (r: Vec<u8>)
    ensures
        r@ == v@,
{
    let mut r: Vec<u8> = Vec::new();
    append_bytes(&mut r, v);
    proof {
        assert(Seq::<u8>::empty() + v@ =~= v@);
    }
    r
}

/// Appends all bytes of `src` to `out`.
pub(crate) fn append_bytes(out: &mut Vec<u8>, src: &Vec<u8>)
    ensures
        final(out)@ == old(out)@ + src@,
{
    let mut i: usize = 0;
    while i < src.len()
        invariant
            i <= src.len(),
            out@ == old(out)@ + src@.subrange(0, i as int),
        decreases src.len() - i,
    {
        out.push(src[i]);
        proof {
            assert(out@ =~= old(out)@ + src@.subrange(0, i as int + 1));
        }
        i += 1;
    }
    proof {
        assert(src@.subrange(0, src@.len() as int) =~= src@);
    }
}

/// For a record whose notification succeeded or failed alike, decoding the
/// encoded lines yields the record back: the same timestamp, the same
/// address text, the same success flag.
pub proof fn lemma_encode_decode_roundtrip(r: AttemptRecord)
    requires
        r.wf(),
    ensures
        lines_decodable(encoded_lines(r)),
        decoded_timestamp(encoded_lines(r)) == r.observed_at,
        encoded_lines(r)[1] == r.address@,
        decoded_success(encoded_lines(r)) == r.last_notification_succeeded,
{
    let lines = encoded_lines(r);
    assert(lines[0] == rfc2822_bytes(r.observed_at));
    assert(is_rfc2822(lines[0])) by {
        assert(r.observed_at.wf() && rfc2822_bytes(r.observed_at) == lines[0]);
    }
    let picked = decoded_timestamp(lines);
    assert(picked.wf() && rfc2822_bytes(picked) == lines[0]);
    lemma_rfc2822_injective(picked, r.observed_at);
}

/// A record whose notification did not succeed encodes to exactly two
/// lines: the marker is expressed by absence, never by an explicit token.
pub proof fn lemma_asymmetric_flag(r: AttemptRecord)
    requires
        r.wf(),
        !r.last_notification_succeeded,
    ensures
        encoded_lines(r).len() == 2,
{
}

/// Decoding any two-line input yields a record whose success flag is
/// false, whatever the two lines hold.
pub proof fn lemma_two_lines_mean_failure(lines: Seq<Seq<u8>>)
    requires
        lines.len() == 2,
    ensures
        !decoded_success(lines),
{
}

} // verus!
