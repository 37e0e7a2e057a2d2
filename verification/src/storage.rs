//! The file-based storage backend, as far as it can be stated over plain
//! values: what the bytes read from the check file mean, and what bytes a
//! save writes.
//!
//! The backend owns the check file's path. The surrounding program performs
//! the file system calls: it hands `get_last_ip_attempt` the file's bytes
//! (or nothing, when the open failed), and writes the bytes
//! `save_new_attempt` returns to the file, creating the parent directories
//! first and treating any write failure as fatal.

use vstd::prelude::*;

use crate::codec::AttemptRecord;
use crate::codec::DecodeError;
use crate::codec::append_bytes;
use crate::codec::decode_lines;
use crate::codec::decoded_success;
use crate::codec::decoded_timestamp;
use crate::codec::encoded_lines;
use crate::codec::line_views;
use crate::codec::lines_decodable;
use crate::timestamp::is_rfc2822;
use crate::timestamp::lemma_rfc2822_injective;
use crate::timestamp::lemma_rfc2822_no_breaks;
use crate::timestamp::rfc2822_bytes;

verus! {

/// The number of bytes before the first line feed, or all of them when
/// there is none.
pub open spec fn line_prefix_len(s: Seq<u8>) -> int
    decreases s.len(),
{
    if s.len() == 0 {
        0
    } else if s[0] == 10u8 {
        0
    } else {
        1 + line_prefix_len(s.subrange(1, s.len() as int))
    }
}

/// What `line_prefix_len` finds: the longest line-feed-free prefix.
proof fn lemma_line_prefix_len(s: Seq<u8>)
    ensures
        0 <= line_prefix_len(s) <= s.len(),
        forall|i: int| 0 <= i < line_prefix_len(s) ==> s[i] != 10u8,
        line_prefix_len(s) < s.len() ==> s[line_prefix_len(s)] == 10u8,
    decreases s.len(),
{
    if s.len() != 0 && s[0] != 10u8 {
        let tail = s.subrange(1, s.len() as int);
        lemma_line_prefix_len(tail);
        assert forall|i: int| 0 <= i < line_prefix_len(s) implies s[i] != 10u8 by {
            if i > 0 {
                assert(tail[i - 1] == s[i]);
            }
        }
        if line_prefix_len(s) < s.len() {
            assert(tail[line_prefix_len(s) - 1] == s[line_prefix_len(s)]);
        }
    }
}

/// The prefix length is determined by where the first line feed stands.
proof fn lemma_prefix_len_is(s: Seq<u8>, k: int)
    requires
        0 <= k <= s.len(),
        forall|i: int| 0 <= i < k ==> s[i] != 10u8,
        k < s.len() ==> s[k] == 10u8,
    ensures
        line_prefix_len(s) == k,
    decreases s.len(),
{
    if k > 0 {
        let tail = s.subrange(1, s.len() as int);
        assert forall|i: int| 0 <= i < k - 1 implies tail[i] != 10u8 by {
            assert(tail[i] == s[i + 1]);
        }
        if k - 1 < tail.len() {
            assert(tail[k - 1] == s[k]);
        }
        lemma_prefix_len_is(tail, k - 1);
    }
}

/// A line as a reader of line-feed-terminated lines yields it: a carriage
/// return standing just before the terminator is dropped.
pub open spec fn strip_cr(s: Seq<u8>) -> Seq<u8> {
    if s.len() > 0 && s[s.len() - 1] == 13u8 {
        s.subrange(0, s.len() - 1)
    } else {
        s
    }
}

/// The lines of a byte stream, as line-oriented reading yields them: split
/// at each line feed, a carriage return just before a line feed dropped, a
/// final fragment without a terminator kept as it stands, and no empty
/// trailing line for a stream that ends at a line feed.
pub open spec fn line_split(s: Seq<u8>) -> Seq<Seq<u8>>
    decreases s.len(),
    via line_split_decreases
{
    if s.len() == 0 {
        seq![]
    } else {
        let n = line_prefix_len(s);
        if n == s.len() {
            seq![s]
        } else {
            seq![strip_cr(s.subrange(0, n))] + line_split(s.subrange(n + 1, s.len() as int))
        }
    }
}

#[via_fn]
proof fn line_split_decreases(s: Seq<u8>) {
    lemma_line_prefix_len(s);
}

/// Splitting a stream that starts with a clean, terminated line peels that
/// line off whole.
proof fn lemma_split_clean_line(a: Seq<u8>, rest: Seq<u8>)
    requires
        forall|i: int| 0 <= i < a.len() ==> a[i] != 10u8,
        a.len() > 0 ==> a[a.len() - 1] != 13u8,
    ensures
        line_split(a + seq![10u8] + rest) == seq![a] + line_split(rest),
{
    let s = a + seq![10u8] + rest;
    assert forall|i: int| 0 <= i < a.len() implies s[i] != 10u8 by {
        assert(s[i] == a[i]);
    }
    assert(s[a.len() as int] == 10u8);
    lemma_prefix_len_is(s, a.len() as int);
    assert(s.subrange(0, a.len() as int) =~= a);
    assert(s.subrange(a.len() as int + 1, s.len() as int) =~= rest);
    assert(strip_cr(a) == a);
}

/// Splits file bytes into lines.
pub fn split_lines(content: &Vec<u8>) -> (lines: Vec<Vec<u8>>)
    ensures
        line_views(lines@) == line_split(content@),
{
    let mut lines: Vec<Vec<u8>> = Vec::new();
    let mut p: usize = 0;
    proof {
        assert(content@.subrange(0, content@.len() as int) =~= content@);
        assert(line_views(lines@) =~= Seq::<Seq<u8>>::empty());
        assert(Seq::<Seq<u8>>::empty() + line_split(content@) =~= line_split(content@));
    }
    while p < content.len()
        invariant
            p <= content.len(),
            line_split(content@) == line_views(lines@) + line_split(
                content@.subrange(p as int, content@.len() as int),
            ),
        decreases content.len() - p,
    {
        let ghost sub = content@.subrange(p as int, content@.len() as int);
        let mut cur: Vec<u8> = Vec::new();
        let mut j: usize = p;
        while j < content.len() && content[j] != 10
            invariant
                p <= j <= content.len(),
                cur@ == content@.subrange(p as int, j as int),
                forall|i: int| p <= i < j ==> content@[i] != 10u8,
            decreases content.len() - j,
        {
            cur.push(content[j]);
            proof {
                assert(cur@ =~= content@.subrange(p as int, j as int + 1));
            }
            j += 1;
        }
        proof {
            assert forall|i: int| 0 <= i < j - p implies sub[i] != 10u8 by {
                assert(sub[i] == content@[p + i]);
            }
            if j < content.len() {
                assert(sub[j as int - p] == content@[j as int]);
            }
            lemma_prefix_len_is(sub, j - p);
            assert(sub.subrange(0, j - p) =~= content@.subrange(p as int, j as int));
        }
        if j < content.len() {
            // terminated line: drop a carriage return standing before the
            // line feed, then continue past the terminator
            if cur.len() > 0 && cur[cur.len() - 1] == 13 {
                cur.pop();
                proof {
                    assert(cur@ =~= strip_cr(content@.subrange(p as int, j as int)));
                }
            } else {
                proof {
                    assert(cur@ == strip_cr(content@.subrange(p as int, j as int)));
                }
            }
            proof {
                assert(sub.subrange(j - p + 1, sub.len() as int) =~= content@.subrange(
                    j as int + 1,
                    content@.len() as int,
                ));
                assert(line_split(sub) == seq![cur@] + line_split(
                    content@.subrange(j as int + 1, content@.len() as int),
                ));
            }
            let ghost old_lines = lines@;
            lines.push(cur);
            proof {
                assert(line_views(lines@) =~= line_views(old_lines) + seq![cur@]);
                assert((line_views(old_lines) + seq![cur@]) + line_split(
                    content@.subrange(j as int + 1, content@.len() as int),
                ) =~= line_views(old_lines) + (seq![cur@] + line_split(
                    content@.subrange(j as int + 1, content@.len() as int),
                )));
            }
            p = j + 1;
        } else {
            // final fragment without a terminator: kept as it stands
            proof {
                assert(cur@ =~= sub);
                assert(line_split(sub) == seq![sub]);
            }
            let ghost old_lines = lines@;
            lines.push(cur);
            proof {
                assert(line_views(lines@) =~= line_views(old_lines) + seq![cur@]);
                assert(content@.subrange(content@.len() as int, content@.len() as int)
                    =~= Seq::<u8>::empty());
                assert(line_views(old_lines) + seq![sub] + line_split(Seq::<u8>::empty())
                    =~= line_views(old_lines) + line_split(sub));
            }
            p = content.len();
        }
    }
    proof {
        assert(content@.subrange(content@.len() as int, content@.len() as int)
            =~= Seq::<u8>::empty());
        assert(line_views(lines@) + line_split(Seq::<u8>::empty()) =~= line_views(lines@));
    }
    lines
}

/// The exact bytes a save writes for a record: each encoded line
/// terminated by a line feed, the marker line present exactly when the
/// notification succeeded.
pub open spec fn encoded_content(r: AttemptRecord) -> Seq<u8> {
    rfc2822_bytes(r.observed_at) + seq![10u8] + r.address@ + seq![10u8] + (
    if r.last_notification_succeeded {
        seq![49u8, 10u8]
    } else {
        Seq::<u8>::empty()
    })
}

/// Whether file bytes carry a record once split into lines.
pub open spec fn content_decodable(c: Seq<u8>) -> bool {
    lines_decodable(line_split(c))
}

/// What a save writes is what a read gets back: the content written for a
/// record splits into exactly the record's encoded lines, and decoding
/// them yields the record's own timestamp, address text and success flag.
pub proof fn lemma_content_roundtrip(r: AttemptRecord)
    requires
        r.wf(),
    ensures
        line_split(encoded_content(r)) == encoded_lines(r),
        content_decodable(encoded_content(r)),
        decoded_timestamp(line_split(encoded_content(r))) == r.observed_at,
        line_split(encoded_content(r))[1] == r.address@,
        decoded_success(line_split(encoded_content(r))) == r.last_notification_succeeded,
{
    let a = rfc2822_bytes(r.observed_at);
    let tail: Seq<u8> = if r.last_notification_succeeded {
        seq![49u8, 10u8]
    } else {
        Seq::<u8>::empty()
    };
    let rest = r.address@ + seq![10u8] + tail;
    lemma_rfc2822_no_breaks(r.observed_at);
    assert(encoded_content(r) =~= a + seq![10u8] + rest);
    lemma_split_clean_line(a, rest);
    lemma_split_clean_line(r.address@, tail);
    if r.last_notification_succeeded {
        assert(seq![49u8] + seq![10u8] + Seq::<u8>::empty() =~= tail);
        lemma_split_clean_line(seq![49u8], Seq::<u8>::empty());
        assert(line_split(Seq::<u8>::empty()) == Seq::<Seq<u8>>::empty());
        assert(seq![seq![49u8]] + Seq::<Seq<u8>>::empty() =~= seq![seq![49u8]]);
        assert(line_split(encoded_content(r)) =~= encoded_lines(r));
    } else {
        assert(line_split(tail) == Seq::<Seq<u8>>::empty());
        assert(seq![r.address@] + Seq::<Seq<u8>>::empty() =~= seq![r.address@]);
        assert(line_split(encoded_content(r)) =~= encoded_lines(r));
    }
    assert(is_rfc2822(encoded_lines(r)[0])) by {
        assert(r.observed_at.wf() && rfc2822_bytes(r.observed_at) == encoded_lines(r)[0]);
    }
    let picked = decoded_timestamp(encoded_lines(r));
    assert(picked.wf() && rfc2822_bytes(picked) == encoded_lines(r)[0]);
    lemma_rfc2822_injective(picked, r.observed_at);
}

/// The file-based storage backend: owns the path of the check file, and
/// states over plain bytes what its two operations read and write.
pub struct FileSystemUpdatesStorage(pub String);

impl From<String> for FileSystemUpdatesStorage {
    /// Builds the backend over the check file path the configuration gave.
    fn from(check_file_path: String) -> (s: Self) {
        FileSystemUpdatesStorage(check_file_path)
    }
}

impl vstd::std_specs::convert::FromSpecImpl<String> for FileSystemUpdatesStorage {
    open spec fn obeys_from_spec() -> bool {
        true
    }

    open spec fn from_spec(check_file_path: String) -> Self {
        FileSystemUpdatesStorage(check_file_path)
    }
}

impl FileSystemUpdatesStorage {
    /// The path of the check file.
    pub fn path(&self) -> (p: &String)
        ensures
            p@ == self.0@,
    {
        &self.0
    }

    /// What the last recorded attempt was, given what a read of the check
    /// file produced: `None` when the file could not be opened, its bytes
    /// otherwise.
    ///
    /// Yields the record the bytes carry; an unopenable file and malformed
    /// or truncated content alike mean "no prior record", never an error.
    pub fn get_last_ip_attempt(&self, file_content: Option<Vec<u8>>) -> (r: Option<AttemptRecord>)
        ensures
            match file_content {
                None => r is None,
                Some(c) => match r {
                    Some(rec) => {
                        &&& content_decodable(c@)
                        &&& rec.wf()
                        &&& rec.observed_at == decoded_timestamp(line_split(c@))
                        &&& rec.address@ == line_split(c@)[1]
                        &&& rec.last_notification_succeeded == decoded_success(line_split(c@))
                    },
                    None => !content_decodable(c@),
                },
            },
    {
        match file_content {
            None => None,
            Some(c) => {
                let lines = split_lines(&c);
                match decode_lines(&lines) {
                    Ok(rec) => Some(rec),
                    Err(DecodeError::MalformedRecord) => None,
                }
            },
        }
    }

    /// The bytes that persist a new attempt: the record's encoded lines,
    /// each terminated by a line feed.
    ///
    /// Writing exactly these bytes over the check file replaces the
    /// previous record entirely: the marker line is freshly written or
    /// freshly absent, with no trace of what stood there before.
    pub fn save_new_attempt(&self, new_attempt: &AttemptRecord) -> (content: Vec<u8>)
        requires
            new_attempt.wf(),
        ensures
            content@ == encoded_content(*new_attempt),
    {
        let mut content = new_attempt.observed_at.to_rfc2822();
        content.push(10);
        append_bytes(&mut content, &new_attempt.address);
        content.push(10);
        if new_attempt.last_notification_succeeded {
            content.push(49);
            content.push(10);
        }
        proof {
            assert(content@ =~= encoded_content(*new_attempt));
        }
        content
    }
}

} // verus!
