//! Auditing traffic: whether a connection through an HTTP proxy looks like a Trojan handshake.
//!
//! The client's part of a TLS handshake ends with a record that changes the cipher. What
//! follows it in either direction, up to the next turn, is counted; a certain pair of sizes
//! gives the protocol away.
use crate::text::{
    char_code, chars_of, head, is_space, space, string_of, tail, text_eq, trimmed_start,
};
use vstd::prelude::*;

verus! {

/// The record with which a client changes the cipher.
pub const CHANGE_CIPHER_SPEC: [u8; 6] = [20, 3, 3, 0, 1, 1];

/// Whether `data` starts with the record with which a client changes the cipher.
pub open spec fn changes_cipher(data: Seq<u8>) -> bool {
    data.len() >= 6 && data.take(6) == seq![20u8, 3, 3, 0, 1, 1]
}

/// Whether the sizes give a Trojan handshake away.
pub open spec fn gives_away(up: nat, down: nat) -> bool {
    650 <= up <= 750 && (170 <= down <= 180 || 3000 <= down <= 7500)
}

/// What is known about a connection.
#[derive(Debug, Clone, Copy, PartialEq, Eq, Structural)]
pub struct Audit {
    /// Whether the client's turn is being counted.
    pub uploading: bool,
    /// How much of it has been counted.
    pub up_count: usize,
    /// Whether the server's turn is being counted.
    pub downloading: bool,
    /// How much of it has been counted.
    pub down_count: usize,
}

/// A connection after the client has sent `data`.
pub open spec fn after_upload(a: Audit, data: Seq<u8>) -> Audit {
    let uploading = a.uploading || (a.up_count == 0 && changes_cipher(data));
    Audit {
        uploading,
        up_count: if uploading {
            (a.up_count + data.len()) as usize
        } else {
            a.up_count
        },
        downloading: false,
        down_count: a.down_count,
    }
}

/// Whether it is known then that the connection is Trojan.
pub open spec fn verdict(a: Audit, data: Seq<u8>) -> bool {
    a.downloading && gives_away(after_upload(a, data).up_count as nat, a.down_count as nat)
}

/// A connection after the server has sent `n` bytes.
pub open spec fn after_download(a: Audit, n: usize) -> Audit {
    let downloading = a.downloading || a.uploading;
    Audit {
        uploading: false,
        up_count: a.up_count,
        downloading,
        down_count: if downloading {
            (a.down_count + n) as usize
        } else {
            a.down_count
        },
    }
}

impl Audit {
    /// The turns follow each other, and the client's comes first.
    pub open spec fn wf(&self) -> bool {
        &&& self.uploading || self.downloading ==> self.up_count > 0
        &&& self.downloading ==> !self.uploading
    }

    /// A connection on which nothing has been sent.
    pub fn new() -> (a: Audit)
        ensures
            a.wf(),
            a == (Audit { uploading: false, up_count: 0, downloading: false, down_count: 0 }),
    {
        Audit { uploading: false, up_count: 0, downloading: false, down_count: 0 }
    }

    /// Takes note of what the client sends, and tells whether the connection is now known to be
    /// Trojan.
    pub fn on_upload(&mut self, data: &[u8]) -> (is_trojan: bool)
        requires
            old(self).wf(),
            old(self).up_count + data@.len() <= usize::MAX,
        ensures
            final(self).wf(),
            *final(self) == after_upload(*old(self), data@),
            is_trojan == verdict(*old(self), data@),
    {
        if self.up_count == 0 && starts_handshake(data) {
            self.uploading = true;
        }
        if self.uploading {
            self.up_count = self.up_count + data.len();
        }
        if self.downloading {
            self.downloading = false;
            return self.up_count >= 650 && self.up_count <= 750 && ((self.down_count >= 170
                && self.down_count <= 180) || (self.down_count >= 3000 && self.down_count <= 7500));
        }
        false
    }

    /// Takes note of what the server sends.
    pub fn on_download(&mut self, n: usize)
        requires
            old(self).wf(),
            old(self).down_count + n <= usize::MAX,
        ensures
            final(self).wf(),
            *final(self) == after_download(*old(self), n),
    {
        if self.uploading {
            self.uploading = false;
            self.downloading = true;
        }
        if self.downloading {
            self.down_count = self.down_count + n;
        }
    }
}

fn starts_handshake(data: &[u8]) -> (r: bool)
    ensures
        r == changes_cipher(data@),
{
    if data.len() < 6 {
        return false;
    }
    let record = CHANGE_CIPHER_SPEC;
    let r = data[0] == record[0] && data[1] == record[1] && data[2] == record[2] && data[3]
        == record[3] && data[4] == record[4] && data[5] == record[5];
    proof {
        let front = data@.take(6);
        assert(forall|i: int| 0 <= i < 6 ==> front[i] == data@[i]);
        if r {
            assert(front =~= seq![20u8, 3, 3, 0, 1, 1]);
        }
        if front == seq![20u8, 3, 3, 0, 1, 1] {
            assert(front[0] == 20 && front[1] == 3 && front[2] == 3 && front[3] == 0 && front[4]
                == 1 && front[5] == 1);
        }
    }
    r
}

/// What is sent on a connection.
pub enum Turn {
    Upload(Seq<u8>),
    Download(usize),
}

/// A connection after several turns, and how many verdicts they brought.
pub open spec fn audited(a: Audit, turns: Seq<Turn>) -> (Audit, nat)
    decreases turns.len(),
{
    if turns.len() == 0 {
        (a, 0)
    } else {
        let (before, n) = audited(a, turns.drop_last());
        match turns.last() {
            Turn::Upload(data) => (after_upload(before, data), n + if verdict(before, data) {
                1nat
            } else {
                0
            }),
            Turn::Download(size) => (after_download(before, size), n),
        }
    }
}

/// Whether nothing more is counted on a connection.
pub open spec fn is_settled(a: Audit) -> bool {
    !a.uploading && !a.downloading && a.up_count > 0
}

/// A connection on which nothing more is counted stays as it is, and brings no verdict.
pub proof fn settled_connections_stay_settled(a: Audit, turns: Seq<Turn>)
    requires
        is_settled(a),
    ensures
        audited(a, turns) == (a, 0nat),
    decreases turns.len(),
{
    if turns.len() > 0 {
        settled_connections_stay_settled(a, turns.drop_last());
    }
}

/// A verdict is the last thing that is said of a connection: whatever is sent on it later, there
/// is no other.
pub proof fn connections_are_judged_once(a: Audit, data: Seq<u8>, later: Seq<Turn>)
    requires
        a.wf(),
        verdict(a, data),
    ensures
        audited(after_upload(a, data), later) == (after_upload(a, data), 0nat),
{
    settled_connections_stay_settled(after_upload(a, data), later);
}

/// How many bytes the client sends in several pieces.
pub open spec fn sent_up(pieces: Seq<Seq<u8>>) -> nat
    decreases pieces.len(),
{
    if pieces.len() == 0 {
        0
    } else {
        sent_up(pieces.drop_last()) + pieces.last().len()
    }
}

/// How many bytes the server sends in several pieces.
pub open spec fn sent_down(sizes: Seq<usize>) -> nat
    decreases sizes.len(),
{
    if sizes.len() == 0 {
        0
    } else {
        sent_down(sizes.drop_last()) + sizes.last() as nat
    }
}

/// The turns in which the client sends `pieces`.
pub open spec fn uploads(pieces: Seq<Seq<u8>>) -> Seq<Turn> {
    pieces.map_values(|data: Seq<u8>| Turn::Upload(data))
}

/// The turns in which the server sends pieces of these sizes.
pub open spec fn downloads(sizes: Seq<usize>) -> Seq<Turn> {
    sizes.map_values(|n: usize| Turn::Download(n))
}

/// Whether `data` starts with the six bytes with which a client changes the cipher.
pub open spec fn starts_with_record(data: Seq<u8>) -> bool {
    data.len() >= 6 && data[0] == 20 && data[1] == 3 && data[2] == 3 && data[3] == 0 && data[4] == 1
        && data[5] == 1
}

/// Whether the client does not change the cipher.
pub open spec fn is_prelude(turns: Seq<Turn>) -> bool {
    forall|i: int|
        0 <= i < turns.len() ==> ((#[trigger] turns[i]) matches Turn::Upload(data)
            ==> !starts_with_record(data))
}

proof fn records_are_six_bytes(data: Seq<u8>)
    ensures
        changes_cipher(data) == starts_with_record(data),
{
    let front = data.take(6);
    let record = seq![20u8, 3, 3, 0, 1, 1];
    if data.len() >= 6 {
        assert(forall|i: int| 0 <= i < 6 ==> front[i] == data[i]);
        if starts_with_record(data) {
            assert(front =~= record);
        }
        if front == record {
            assert(front[0] == 20 && front[1] == 3 && front[2] == 3 && front[3] == 0 && front[4]
                == 1 && front[5] == 1);
        }
    }
}

proof fn turns_follow_each_other(a: Audit, first: Seq<Turn>, later: Seq<Turn>)
    ensures
        audited(a, first + later) == (
            audited(audited(a, first).0, later).0,
            audited(a, first).1 + audited(audited(a, first).0, later).1,
        ),
    decreases later.len(),
{
    let all = first + later;
    if later.len() == 0 {
        assert(all =~= first);
    } else {
        turns_follow_each_other(a, first, later.drop_last());
        assert(all.drop_last() =~= first + later.drop_last());
        assert(all.last() == later.last());
    }
}

proof fn preludes_change_nothing(a: Audit, turns: Seq<Turn>)
    requires
        a == (Audit { uploading: false, up_count: 0, downloading: false, down_count: 0 }),
        is_prelude(turns),
    ensures
        audited(a, turns) == (a, 0nat),
    decreases turns.len(),
{
    if turns.len() > 0 {
        let earlier = turns.drop_last();
        assert(is_prelude(earlier)) by {
            assert forall|i: int| 0 <= i < earlier.len() implies ((
            #[trigger] earlier[i]) matches Turn::Upload(data) ==> !starts_with_record(data)) by {
                assert(earlier[i] == turns[i]);
            }
        }
        preludes_change_nothing(a, earlier);
        if let Turn::Upload(data) = turns.last() {
            assert(turns[turns.len() - 1] == turns.last());
            records_are_six_bytes(data);
        }
    }
}

proof fn uploads_are_counted(a: Audit, pieces: Seq<Seq<u8>>)
    requires
        a == (Audit { uploading: false, up_count: 0, downloading: false, down_count: 0 }),
        pieces.len() > 0,
        starts_with_record(pieces[0]),
        sent_up(pieces) <= usize::MAX,
    ensures
        audited(a, uploads(pieces)) == (
            Audit {
                uploading: true,
                up_count: sent_up(pieces) as usize,
                downloading: false,
                down_count: 0,
            },
            0nat,
        ),
        sent_up(pieces) >= 6,
    decreases pieces.len(),
{
    let turns = uploads(pieces);
    let earlier = pieces.drop_last();
    assert(turns.drop_last() =~= uploads(earlier));
    records_are_six_bytes(pieces[0]);
    if earlier.len() == 0 {
        reveal_with_fuel(sent_up, 2);
        reveal_with_fuel(audited, 2);
        assert(pieces.last() == pieces[0]);
    } else {
        assert(earlier[0] == pieces[0]);
        uploads_are_counted(a, earlier);
    }
}

proof fn downloads_are_counted(a: Audit, sizes: Seq<usize>)
    requires
        a.uploading,
        !a.downloading,
        a.down_count == 0,
        sizes.len() > 0,
        sent_down(sizes) <= usize::MAX,
    ensures
        audited(a, downloads(sizes)) == (
            Audit {
                uploading: false,
                up_count: a.up_count,
                downloading: true,
                down_count: sent_down(sizes) as usize,
            },
            0nat,
        ),
    decreases sizes.len(),
{
    let turns = downloads(sizes);
    let earlier = sizes.drop_last();
    assert(turns.drop_last() =~= downloads(earlier));
    if earlier.len() == 0 {
        reveal_with_fuel(sent_down, 2);
        reveal_with_fuel(audited, 2);
    } else {
        downloads_are_counted(a, earlier);
    }
}

/// A connection is known to be Trojan as soon as the client speaks again, if what it sent from
/// the change of the cipher on, up to the server's answer, is 650 to 750 bytes, and the answer is
/// 170 to 180 or 3000 to 7500. What was sent before the change of the cipher does not count, nor
/// into how many pieces either part is cut, nor what the client says then.
pub proof fn connections_are_judged_by_two_sizes(
    before: Seq<Turn>,
    request: Seq<Seq<u8>>,
    answer: Seq<usize>,
    next: Seq<u8>,
)
    requires
        is_prelude(before),
        request.len() > 0,
        starts_with_record(request[0]),
        answer.len() > 0,
        sent_up(request) <= usize::MAX,
        sent_down(answer) <= usize::MAX,
    ensures
        ({
            let start = Audit { uploading: false, up_count: 0, downloading: false, down_count: 0 };
            let exchange = before + uploads(request) + downloads(answer);
            let up = sent_up(request);
            let down = sent_down(answer);
            &&& audited(start, exchange).1 == 0
            &&& verdict(audited(start, exchange).0, next) <==> 650 <= up <= 750 && (170 <= down
                <= 180 || 3000 <= down <= 7500)
        }),
{
    let start = Audit { uploading: false, up_count: 0, downloading: false, down_count: 0 };
    let asked = audited(start, before + uploads(request)).0;
    preludes_change_nothing(start, before);
    uploads_are_counted(start, request);
    turns_follow_each_other(start, before, uploads(request));
    downloads_are_counted(asked, answer);
    turns_follow_each_other(start, before + uploads(request), downloads(answer));
}

/// The part of `s` up to its first white space.
pub open spec fn up_to_space(s: Seq<char>) -> Seq<char>
    decreases s.len(),
{
    if s.len() == 0 || is_space(s[0]) {
        Seq::empty()
    } else {
        seq![s[0]] + up_to_space(s.skip(1))
    }
}

/// The first word of `s`, or nothing.
pub open spec fn first_word(s: Seq<char>) -> Seq<char> {
    up_to_space(trimmed_start(s))
}

/// What follows the first word of `s`.
pub open spec fn after_first_word(s: Seq<char>) -> Seq<char> {
    trimmed_start(s).skip(first_word(s).len() as int)
}

fn cut_word(s: &[char]) -> (r: (&[char], &[char]))
    ensures
        r.0@ == first_word(s@),
        r.1@ == after_first_word(s@),
{
    let mut rest = s;
    while rest.len() > 0 && space(rest[0])
        invariant
            trimmed_start(s@) == trimmed_start(rest@),
        decreases rest@.len(),
    {
        rest = tail(rest, 1);
    }
    let mut n: usize = 0;
    let ghost start = rest@;
    assert(start.skip(0) =~= start);
    assert(start.take(0) + up_to_space(start) =~= up_to_space(start));
    while n < rest.len() && !space(rest[n])
        invariant
            n <= rest@.len(),
            rest@ == start,
            up_to_space(start) == start.take(n as int) + up_to_space(start.skip(n as int)),
        decreases rest@.len() - n,
    {
        assert(start.skip(n as int).skip(1) =~= start.skip(n + 1));
        assert(start.take(n as int) + (seq![start[n as int]] + up_to_space(start.skip(n + 1)))
            =~= start.take(n + 1) + up_to_space(start.skip(n + 1)));
        n += 1;
    }
    assert(start.take(n as int) + Seq::<char>::empty() =~= start.take(n as int));
    (head(rest, n), tail(rest, n))
}

/// The method and the target of the request whose first line is `line`.
pub fn request_of(line: &str) -> (r: (String, String))
    ensures
        r.0@ == first_word(line@),
        r.1@ == first_word(after_first_word(line@)),
{
    let chars = chars_of(line);
    let (method, rest) = cut_word(chars.as_slice());
    let (target, _) = cut_word(rest);
    (string_of(method), string_of(target))
}

/// Whether `line` ends the head of a request: it is empty, or there is no other line.
pub fn ends_head(line: &str) -> (r: bool)
    ensures
        r == (line@.len() == 0 || line@ == "\r\n"@ || line@ == "\n"@),
{
    let nothing = line.is_empty();
    assert(nothing == (line@.len() == 0));
    nothing || text_eq(line, "\r\n") || text_eq(line, "\n")
}

/// `c` as a small letter, if it is a capital letter of ASCII.
pub open spec fn small(c: char) -> char {
    if 65 <= c as int <= 90 {
        (c as int + 32) as char
    } else {
        c
    }
}

/// `s` in small letters.
pub open spec fn in_small_letters(s: Seq<char>) -> Seq<char> {
    s.map_values(|c: char| small(c))
}

fn is_letter(c: char, letter: char) -> (r: bool)
    ensures
        r == (small(c) == letter),
{
    let code: u32 = char_code(c);
    let lowered: u32 = if code >= 65 && code <= 90 {
        code + 32
    } else {
        code
    };
    lowered == char_code(letter)
}

/// Whether a request asks for a tunnel.
pub fn is_connect(method: &str) -> (r: bool)
    ensures
        r == (in_small_letters(method@) == "connect"@),
{
    let chars = chars_of(method);
    let wanted = chars_of("connect");
    if chars.len() != wanted.len() {
        return false;
    }
    let mut i: usize = 0;
    while i < chars.len()
        invariant
            i <= chars@.len(),
            chars@.len() == wanted@.len(),
            chars@ == method@,
            wanted@ == "connect"@,
            forall|j: int| 0 <= j < i ==> small(chars@[j]) == #[trigger] wanted@[j],
        decreases chars@.len() - i,
    {
        if !is_letter(chars[i], wanted[i]) {
            assert(in_small_letters(method@)[i as int] != wanted@[i as int]);
            return false;
        }
        i += 1;
    }
    assert(in_small_letters(method@) =~= wanted@);
    true
}

} // verus!
