//! Words and white space: what is cut off a text, what a request line says, and how letters of
//! different size compare.
use crate::audit::{after_first_word, first_word, in_small_letters, up_to_space};
use crate::text::{is_space, trimmed, trimmed_end, trimmed_start};
use vstd::prelude::*;

verus! {

/// White space is the space, the line breaks and the tabs of ASCII, and the spaces and line
/// breaks that Unicode adds to them.
pub proof fn white_space_is_listed(c: char)
    ensures
        is_space(c) <==> c == ' ' || c == '\t' || c == '\n' || c == '\r' || c == '\u{b}' || c
            == '\u{c}' || c == '\u{85}' || c == '\u{a0}' || c == '\u{1680}' || c == '\u{2000}' || c
            == '\u{2001}' || c == '\u{2002}' || c == '\u{2003}' || c == '\u{2004}' || c
            == '\u{2005}' || c == '\u{2006}' || c == '\u{2007}' || c == '\u{2008}' || c
            == '\u{2009}' || c == '\u{200a}' || c == '\u{2028}' || c == '\u{2029}' || c
            == '\u{202f}' || c == '\u{205f}' || c == '\u{3000}',
{
}

/// Whether all of `s` is white space.
pub open spec fn is_blank(s: Seq<char>) -> bool {
    forall|i: int| 0 <= i < s.len() ==> is_space(#[trigger] s[i])
}

/// Whether `s` is one character or more, and none of them white space.
pub open spec fn is_word(s: Seq<char>) -> bool {
    s.len() > 0 && forall|i: int| 0 <= i < s.len() ==> !is_space(#[trigger] s[i])
}

proof fn blanks_are_cut_off_the_start(blank: Seq<char>, rest: Seq<char>)
    requires
        is_blank(blank),
        rest.len() > 0 ==> !is_space(rest[0]),
    ensures
        trimmed_start(blank + rest) == rest,
    decreases blank.len(),
{
    let whole = blank + rest;
    if blank.len() == 0 {
        assert(whole =~= rest);
    } else {
        assert(is_space(blank[0]));
        assert(whole.skip(1) =~= blank.skip(1) + rest);
        assert(is_blank(blank.skip(1))) by {
            assert forall|i: int| 0 <= i < blank.skip(1).len() implies is_space(
                #[trigger] blank.skip(1)[i],
            ) by {
                assert(blank.skip(1)[i] == blank[i + 1]);
            }
        }
        blanks_are_cut_off_the_start(blank.skip(1), rest);
    }
}

proof fn blanks_are_cut_off_the_end(rest: Seq<char>, blank: Seq<char>)
    requires
        is_blank(blank),
        rest.len() > 0 ==> !is_space(rest.last()),
    ensures
        trimmed_end(rest + blank) == rest,
    decreases blank.len(),
{
    let whole = rest + blank;
    if blank.len() == 0 {
        assert(whole =~= rest);
    } else {
        assert(is_space(blank[blank.len() - 1]));
        assert(whole.drop_last() =~= rest + blank.drop_last());
        blanks_are_cut_off_the_end(rest, blank.drop_last());
    }
}

/// Trimming takes the white space off both ends of a text and nothing else.
pub proof fn trimming_keeps_what_is_between(before: Seq<char>, core: Seq<char>, behind: Seq<char>)
    requires
        is_blank(before),
        is_blank(behind),
        core.len() > 0 ==> !is_space(core[0]) && !is_space(core.last()),
    ensures
        trimmed(before + core + behind) == core,
{
    if core.len() == 0 {
        let whole = before + core + behind;
        let none = Seq::<char>::empty();
        assert(is_blank(whole)) by {
            assert forall|i: int| 0 <= i < whole.len() implies is_space(#[trigger] whole[i]) by {
                if i < before.len() {
                    assert(whole[i] == before[i]);
                } else {
                    assert(whole[i] == behind[i - before.len()]);
                }
            }
        }
        blanks_are_cut_off_the_start(whole, none);
        assert(whole + none =~= whole);
        assert(core =~= none);
    } else {
        assert(before + core + behind =~= before + (core + behind));
        assert((core + behind)[0] == core[0]);
        blanks_are_cut_off_the_start(before, core + behind);
        blanks_are_cut_off_the_end(core, behind);
    }
}

proof fn words_end_at_white_space(word: Seq<char>, rest: Seq<char>)
    requires
        forall|i: int| 0 <= i < word.len() ==> !is_space(#[trigger] word[i]),
        rest.len() > 0 ==> is_space(rest[0]),
    ensures
        up_to_space(word + rest) == word,
    decreases word.len(),
{
    let whole = word + rest;
    if word.len() == 0 {
        assert(whole =~= rest);
        assert(word =~= Seq::<char>::empty());
    } else {
        assert(whole.skip(1) =~= word.skip(1) + rest);
        assert forall|i: int| 0 <= i < word.skip(1).len() implies !is_space(
            #[trigger] word.skip(1)[i],
        ) by {
            assert(word.skip(1)[i] == word[i + 1]);
        }
        words_end_at_white_space(word.skip(1), rest);
        assert(!is_space(word[0]));
        assert(seq![word[0]] + word.skip(1) =~= word);
    }
}

/// The method of a request is the first word of its first line, and its target the second, with
/// whatever white space before, between and behind them.
pub proof fn request_lines_are_words(
    before: Seq<char>,
    method: Seq<char>,
    gap: Seq<char>,
    target: Seq<char>,
    rest: Seq<char>,
)
    requires
        is_blank(before),
        is_word(method),
        is_blank(gap),
        gap.len() > 0,
        is_word(target),
        rest.len() > 0 ==> is_space(rest[0]),
    ensures
        ({
            let line = before + method + gap + target + rest;
            &&& first_word(line) == method
            &&& first_word(after_first_word(line)) == target
        }),
{
    let line = before + method + gap + target + rest;
    let tail = gap + target + rest;
    assert(line =~= before + (method + tail));
    assert((method + tail)[0] == method[0]);
    blanks_are_cut_off_the_start(before, method + tail);
    assert(tail[0] == gap[0]);
    words_end_at_white_space(method, tail);
    assert(after_first_word(line) =~= tail);
    assert(tail =~= gap + (target + rest));
    assert((target + rest)[0] == target[0]);
    blanks_are_cut_off_the_start(gap, target + rest);
    words_end_at_white_space(target, rest);
}

/// A line with no second word has an empty target, and a blank one an empty method, too.
pub proof fn missing_words_are_empty(before: Seq<char>, method: Seq<char>, behind: Seq<char>)
    requires
        is_blank(before),
        is_word(method),
        is_blank(behind),
    ensures
        first_word(before + method + behind) == method,
        first_word(after_first_word(before + method + behind)).len() == 0,
        first_word(before).len() == 0,
        first_word(after_first_word(before)).len() == 0,
{
    let line = before + method + behind;
    let none = Seq::<char>::empty();
    assert(line =~= before + (method + behind));
    assert((method + behind)[0] == method[0]);
    blanks_are_cut_off_the_start(before, method + behind);
    if behind.len() > 0 {
        assert(is_space(behind[0]));
    }
    words_end_at_white_space(method, behind);
    assert(after_first_word(line) =~= behind);
    blanks_are_cut_off_the_start(behind, none);
    assert(behind + none =~= behind);
    blanks_are_cut_off_the_start(before, none);
    assert(before + none =~= before);
    assert(after_first_word(before) =~= none);
}

/// Two texts are the same in small letters if they differ in the size of letters of ASCII alone.
pub proof fn small_letters_keep_the_rest(s: Seq<char>, i: int)
    requires
        0 <= i < s.len(),
    ensures
        in_small_letters(s).len() == s.len(),
        'A' <= s[i] <= 'Z' ==> in_small_letters(s)[i] as int == s[i] as int + 32,
        !('A' <= s[i] <= 'Z') ==> in_small_letters(s)[i] == s[i],
{
}

} // verus!
