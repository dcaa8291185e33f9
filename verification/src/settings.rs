//! The `key=value` lines that peers tell each other about themselves.
use crate::assoc::{keys, lookup, put};
use crate::text::{
    byte_position, bytes_eq, parse_unsigned, position, position_bounds, position_is,
    unsigned_value,
};
use vstd::prelude::*;
use vstd::slice::{slice_subrange, slice_to_vec};
use vstd::utf8::encode_utf8;

verus! {

/// Keys and values, in the order in which the keys were first set.
pub type Settings = Seq<(Seq<u8>, Seq<u8>)>;

/// The line for one key.
pub open spec fn line_bytes(e: (Seq<u8>, Seq<u8>)) -> Seq<u8> {
    e.0 + seq![61u8] + e.1
}

/// All lines, with a line feed between two of them.
pub open spec fn settings_bytes(m: Settings) -> Seq<u8>
    decreases m.len(),
{
    if m.len() == 0 {
        Seq::empty()
    } else if m.len() == 1 {
        line_bytes(m[0])
    } else {
        line_bytes(m[0]) + seq![10u8] + settings_bytes(m.skip(1))
    }
}

/// `m` after the line `line`: the key stands before the first `=`, and a line without one
/// says nothing.
pub open spec fn read_line(m: Settings, line: Seq<u8>) -> Settings {
    let i = position(line, 61u8);
    if i < line.len() {
        put(m, line.take(i), line.skip(i + 1))
    } else {
        m
    }
}

/// `m` after all lines of `data`.
pub open spec fn read_lines(m: Settings, data: Seq<u8>) -> Settings
    decreases data.len(),
{
    let i = position(data, 10u8);
    if 0 <= i < data.len() {
        read_lines(read_line(m, data.take(i)), data.skip(i + 1))
    } else {
        read_line(m, data)
    }
}

/// The settings that `data` holds. A later line for a key replaces an earlier one.
pub open spec fn settings_of(data: Seq<u8>) -> Settings {
    read_lines(Seq::empty(), data)
}

/// The protocol version that a value spells, if it is one.
pub open spec fn version_value(value: Seq<u8>) -> Option<u8> {
    match unsigned_value(value.map_values(|b: u8| b as char), 255) {
        Some(n) => Some(n as u8),
        None => None,
    }
}

/// The protocol version that the settings `m` announce.
pub open spec fn announced_version(m: Settings) -> Option<u8> {
    match lookup(m, encode_utf8("v"@)) {
        Some(value) => version_value(value),
        None => None,
    }
}

/// Settings as they are sent and received.
#[derive(Debug)]
pub struct StringMap {
    entries: Vec<(Vec<u8>, Vec<u8>)>,
}

impl View for StringMap {
    type V = Settings;

    closed spec fn view(&self) -> Settings {
        self.entries@.map_values(|e: (Vec<u8>, Vec<u8>)| (e.0@, e.1@))
    }
}

impl StringMap {
    /// No settings.
    pub fn new() -> (m: StringMap)
        ensures
            m@ == Settings::empty(),
    {
        let m = StringMap { entries: Vec::new() };
        assert(m@ =~= Settings::empty());
        m
    }

    fn find(&self, key: &[u8]) -> (i: usize)
        ensures
            i == position(keys(self@), key@),
            i <= self.entries@.len(),
    {
        let mut i: usize = 0;
        while i < self.entries.len() && !bytes_eq(self.entries[i].0.as_slice(), key)
            invariant
                i <= self.entries@.len(),
                forall|j: int| 0 <= j < i ==> keys(self@)[j] != key@,
            decreases self.entries@.len() - i,
        {
            assert(keys(self@)[i as int] == self.entries@[i as int].0@);
            i += 1;
        }
        proof {
            if i < self.entries@.len() {
                assert(keys(self@)[i as int] == self.entries@[i as int].0@);
            }
            position_is(keys(self@), key@, i as int);
        }
        i
    }

    fn set(&mut self, key: Vec<u8>, value: Vec<u8>)
        ensures
            final(self)@ == put(old(self)@, key@, value@),
    {
        let i: usize = self.find(key.as_slice());
        let ghost expected = put(self@, key@, value@);
        if i < self.entries.len() {
            self.entries.set(i, (key, value));
        } else {
            self.entries.push((key, value));
        }
        assert(self@ =~= expected);
    }

    /// Sets `key` to `value`.
    pub fn insert(&mut self, key: &str, value: &str)
        ensures
            final(self)@ == put(old(self)@, encode_utf8(key@), encode_utf8(value@)),
    {
        let k = slice_to_vec(key.as_bytes());
        let v = slice_to_vec(value.as_bytes());
        assert(k@ =~= encode_utf8(key@));
        assert(v@ =~= encode_utf8(value@));
        self.set(k, v);
    }

    /// The value of `key`, if it is set.
    pub fn get(&self, key: &str) -> (r: Option<&[u8]>)
        ensures
            match r {
                Some(v) => lookup(self@, encode_utf8(key@)) == Some(v@),
                None => lookup(self@, encode_utf8(key@)) is None,
            },
    {
        let i: usize = self.find(key.as_bytes());
        if i < self.entries.len() {
            Some(self.entries[i].1.as_slice())
        } else {
            None
        }
    }

    /// All lines, with a line feed between two of them.
    pub fn to_bytes(&self) -> (b: Vec<u8>)
        ensures
            b@ == settings_bytes(self@),
    {
        let mut b: Vec<u8> = Vec::new();
        let mut i: usize = self.entries.len();
        assert(self@.skip(i as int) =~= Settings::empty());
        while i > 0
            invariant
                i <= self.entries@.len(),
                self@.len() == self.entries@.len(),
                b@ == settings_bytes(self@.skip(i as int)),
            decreases i,
        {
            i -= 1;
            let ghost tail = self@.skip(i as int);
            assert(tail.skip(1) =~= self@.skip(i + 1));
            let mut line: Vec<u8> = Vec::new();
            line.extend_from_slice(self.entries[i].0.as_slice());
            line.push(61);
            line.extend_from_slice(self.entries[i].1.as_slice());
            assert(line@ =~= line_bytes(tail[0]));
            if i + 1 < self.entries.len() {
                line.push(10);
            } else {
                assert(b@ =~= Seq::<u8>::empty());
            }
            line.append(&mut b);
            b = line;
            assert(b@ =~= settings_bytes(tail));
        }
        assert(self@.skip(0) =~= self@);
        b
    }

    fn read_line(&mut self, line: &[u8])
        ensures
            final(self)@ == read_line(old(self)@, line@),
    {
        let i: usize = byte_position(line, 61);
        if i < line.len() {
            let key = slice_to_vec(slice_subrange(line, 0, i));
            let value = slice_to_vec(slice_subrange(line, i + 1, line.len()));
            assert(key@ =~= line@.take(i as int));
            assert(value@ =~= line@.skip(i + 1));
            self.set(key, value);
        }
    }

    /// The settings that `data` holds.
    pub fn from_bytes(data: &[u8]) -> (m: StringMap)
        ensures
            m@ == settings_of(data@),
    {
        let mut m = StringMap::new();
        let mut rest = data;
        let mut i: usize = byte_position(rest, 10);
        while i < rest.len()
            invariant
                i == position(rest@, 10u8),
                i <= rest@.len(),
                settings_of(data@) == read_lines(m@, rest@),
            decreases rest@.len(),
        {
            let line = slice_subrange(rest, 0, i);
            let next = slice_subrange(rest, i + 1, rest.len());
            assert(line@ =~= rest@.take(i as int));
            assert(next@ =~= rest@.skip(i + 1));
            m.read_line(line);
            rest = next;
            i = byte_position(rest, 10);
        }
        m.read_line(rest);
        m
    }

    /// The protocol version that these settings announce.
    pub fn version(&self) -> (r: Option<u8>)
        ensures
            r == announced_version(self@),
    {
        match self.get("v") {
            Some(value) => {
                let mut text: Vec<char> = Vec::new();
                let mut i: usize = 0;
                while i < value.len()
                    invariant
                        i <= value@.len(),
                        text@ == value@.take(i as int).map_values(|b: u8| b as char),
                    decreases value@.len() - i,
                {
                    let b: u8 = value[i];
                    text.push(b as char);
                    i += 1;
                    assert(text@ =~= value@.take(i as int).map_values(|b: u8| b as char));
                }
                assert(value@.take(i as int) =~= value@);
                match parse_unsigned(text.as_slice(), 255) {
                    Some(n) => Some(n as u8),
                    None => None,
                }
            },
            None => None,
        }
    }
}

/// Whether every key and value can be written on a line of its own.
pub open spec fn writable(m: Settings) -> bool {
    &&& keys(m).no_duplicates()
    &&& forall|i: int|
        0 <= i < m.len() ==> !(#[trigger] m[i]).0.contains(61u8) && !m[i].0.contains(10u8)
            && !m[i].1.contains(10u8)
}

proof fn line_reads_back(m: Settings, e: (Seq<u8>, Seq<u8>))
    requires
        !e.0.contains(61u8),
        !keys(m).contains(e.0),
    ensures
        read_line(m, line_bytes(e)) == m.push(e),
{
    let line = line_bytes(e);
    let n = e.0.len() as int;
    assert forall|j: int| 0 <= j < n implies line[j] != 61u8 by {
        assert(e.0.contains(e.0[j]));
    }
    position_is(line, 61u8, n);
    assert(line.take(n) =~= e.0);
    assert(line.skip(n + 1) =~= e.1);
    position_bounds(keys(m), e.0);
    let i = position(keys(m), e.0);
    if i < m.len() {
        assert(keys(m).contains(keys(m)[i]));
    }
}

proof fn lines_read_back(acc: Settings, m: Settings)
    requires
        writable(acc + m),
    ensures
        read_lines(acc, settings_bytes(m)) == acc + m,
    decreases m.len(),
{
    let all = acc + m;
    if m.len() == 0 {
        assert(acc + m =~= acc);
    } else {
        let e = m[0];
        assert(all[acc.len() as int] == e);
        assert(!keys(acc).contains(e.0)) by {
            if keys(acc).contains(e.0) {
                let j = choose|j: int| 0 <= j < keys(acc).len() && keys(acc)[j] == e.0;
                assert(keys(all)[j] == keys(all)[acc.len() as int]);
            }
        }
        line_reads_back(acc, e);
        let line = line_bytes(e);
        assert forall|j: int| 0 <= j < line.len() implies line[j] != 10u8 by {
            if j < e.0.len() {
                assert(e.0.contains(e.0[j]));
            } else if j > e.0.len() {
                assert(e.1.contains(e.1[j - e.0.len() - 1]));
            }
        }
        if m.len() == 1 {
            position_is(line, 10u8, line.len() as int);
            assert(acc.push(e) =~= acc + m);
        } else {
            let data = settings_bytes(m);
            let n = line.len() as int;
            assert forall|j: int| 0 <= j < n implies data[j] != 10u8 by {
                assert(data[j] == line[j]);
            }
            position_is(data, 10u8, n);
            assert(data.take(n) =~= line);
            assert(data.skip(n + 1) =~= settings_bytes(m.skip(1)));
            assert(acc.push(e) + m.skip(1) =~= acc + m);
            lines_read_back(acc.push(e), m.skip(1));
        }
    }
}

/// Reading back what was written gives the same settings.
pub proof fn settings_round_trip(m: Settings)
    requires
        writable(m),
    ensures
        settings_of(settings_bytes(m)) == m,
{
    assert(Settings::empty() + m =~= m);
    lines_read_back(Seq::empty(), m);
}

} // verus!
