//! How the lines are read that peers tell each other about themselves.
use crate::assoc::{lookup, lookup_after_put};
use crate::formats::{is_number, numbers_are_read, spelt};
use crate::settings::{announced_version, read_line, read_lines, settings_of, Settings};
use crate::text::{position, position_bounds, position_is};
use vstd::prelude::*;
use vstd::utf8::encode_utf8;

verus! {

proof fn lines_are_read_in_turn(m: Settings, data: Seq<u8>, line: Seq<u8>)
    requires
        !line.contains(10u8),
    ensures
        read_lines(m, data + seq![10u8] + line) == read_line(read_lines(m, data), line),
    decreases data.len(),
{
    let whole = data + seq![10u8] + line;
    let i = position(data, 10u8);
    position_bounds(data, 10u8);
    if i < data.len() {
        assert forall|j: int| 0 <= j < i implies #[trigger] whole[j] != 10 by {
            assert(whole[j] == data[j]);
        }
        position_is(whole, 10u8, i);
        assert(whole.take(i) =~= data.take(i));
        assert(whole.skip(i + 1) =~= data.skip(i + 1) + seq![10u8] + line);
        lines_are_read_in_turn(read_line(m, data.take(i)), data.skip(i + 1), line);
    } else {
        let n = data.len() as int;
        assert forall|j: int| 0 <= j < n implies #[trigger] whole[j] != 10 by {
            assert(whole[j] == data[j]);
        }
        position_is(whole, 10u8, n);
        assert(whole.take(n) =~= data);
        assert(whole.skip(n + 1) =~= line);
        position_bounds(line, 10u8);
        if position(line, 10u8) < line.len() {
            assert(line[position(line, 10u8)] == 10);
        }
        assert(read_lines(read_line(m, data), line) == read_line(read_line(m, data), line));
    }
}

proof fn keys_end_at_the_first_sign(m: Settings, key: Seq<u8>, value: Seq<u8>, other: Seq<u8>)
    requires
        !key.contains(61u8),
    ensures
        lookup(read_line(m, key + seq![61u8] + value), key) == Some(value),
        other != key ==> lookup(read_line(m, key + seq![61u8] + value), other) == lookup(m, other),
{
    let line = key + seq![61u8] + value;
    let n = key.len() as int;
    assert forall|j: int| 0 <= j < n implies #[trigger] line[j] != 61 by {
        assert(line[j] == key[j]);
        assert(key.contains(key[j]));
    }
    position_is(line, 61u8, n);
    assert(line.take(n) =~= key);
    assert(line.skip(n + 1) =~= value);
    lookup_after_put(m, key, value, other);
}

/// A line sets the key before its first `=` to what stands behind it, whatever was said before,
/// and leaves every other key alone.
pub proof fn later_lines_replace_earlier_ones(
    data: Seq<u8>,
    key: Seq<u8>,
    value: Seq<u8>,
    other: Seq<u8>,
)
    requires
        !key.contains(61u8),
        !key.contains(10u8),
        !value.contains(10u8),
    ensures
        ({
            let line = key + seq![61u8] + value;
            let all = settings_of(data + seq![10u8] + line);
            &&& lookup(all, key) == Some(value)
            &&& other != key ==> lookup(all, other) == lookup(settings_of(data), other)
            &&& lookup(settings_of(line), key) == Some(value)
            &&& other != key ==> lookup(settings_of(line), other) is None
        }),
{
    let line = key + seq![61u8] + value;
    let none = Settings::empty();
    if line.contains(10u8) {
        let i = choose|i: int| 0 <= i < line.len() && line[i] == 10;
        if i < key.len() {
            assert(key[i] == 10);
        } else {
            assert(value[i - key.len() - 1] == 10);
        }
    }
    lines_are_read_in_turn(none, data, line);
    keys_end_at_the_first_sign(settings_of(data), key, value, other);
    keys_end_at_the_first_sign(none, key, value, other);
    position_bounds(line, 10u8);
    if position(line, 10u8) < line.len() {
        assert(line[position(line, 10u8)] == 10);
    }
    position_bounds(crate::assoc::keys(none), other);
}

/// A line without a `=` says nothing.
pub proof fn other_lines_say_nothing(data: Seq<u8>, line: Seq<u8>)
    requires
        !line.contains(61u8),
        !line.contains(10u8),
    ensures
        settings_of(data + seq![10u8] + line) == settings_of(data),
        settings_of(line) == Settings::empty(),
{
    lines_are_read_in_turn(Settings::empty(), data, line);
    position_bounds(line, 61u8);
    position_bounds(line, 10u8);
    if position(line, 61u8) < line.len() {
        assert(line[position(line, 61u8)] == 61);
    }
    if position(line, 10u8) < line.len() {
        assert(line[position(line, 10u8)] == 10);
    }
}

/// The version of a peer is the number that it gives for `v`, if that is a number that fits a
/// byte, with a plus sign before it or without. Otherwise it announces none.
pub proof fn versions_are_numbers(m: Settings, digits: Seq<u8>)
    ensures
        ({
            let text = digits.map_values(|b: u8| b as char);
            let version = if is_number(text) && spelt(text) <= 255 {
                Some(spelt(text) as u8)
            } else {
                None
            };
            let said = lookup(m, encode_utf8("v"@));
            &&& said is None ==> announced_version(m) is None
            &&& said == Some(seq![43u8] + digits) ==> announced_version(m) == version
            &&& said == Some(digits) && digits.len() > 0 && digits[0] != 43 ==> announced_version(m)
                == version
            &&& said == Some(digits) && digits.len() == 0 ==> announced_version(m) is None
        }),
{
    let text = digits.map_values(|b: u8| b as char);
    let signed = (seq![43u8] + digits).map_values(|b: u8| b as char);
    numbers_are_read(text, 255);
    assert(signed =~= seq!['+'] + text);
    if digits.len() > 0 && digits[0] != 43 {
        assert(text[0] == digits[0] as char);
    }
}

} // verus!
