//! The name normalizer: turns a raw executable identifier into a
//! human-readable display label.
//!
//! The rules, applied in order to the raw identifier:
//! 1. strip a trailing `.exe` suffix, compared case-insensitively;
//! 2. if the stripped name holds a separator (the first of hyphen,
//!    underscore, dot that occurs anywhere), every separator becomes one
//!    space and every segment starts with an uppercase letter;
//! 3. else, if the stripped name is entirely ASCII lowercase letters and
//!    digits, uppercase its first character;
//! 4. else, insert a space before every internal uppercase letter that
//!    begins a new word (preceded by a lowercase letter or digit, and
//!    itself followed by a lowercase letter, so trailing single capitals
//!    stay attached), collapse runs of spaces and trim.

use vstd::prelude::*;

use crate::text::{
    contains_char, is_ascii_digit, is_ascii_lower, is_ascii_upper, is_char_suffix, is_digit,
    is_lower, is_upper, lower_char, str_chars, to_lower, to_upper, upper_char, chars_to_string,
};

verus! {

/// Whether the name ends in `.exe`, compared case-insensitively.
pub open spec fn has_exe_suffix(s: Seq<char>) -> bool {
    &&& s.len() >= 4
    &&& s[s.len() - 4] == '.'
    &&& lower_char(s[s.len() - 3]) == 'e'
    &&& lower_char(s[s.len() - 2]) == 'x'
    &&& lower_char(s[s.len() - 1]) == 'e'
}

/// Rule one: the name with a trailing `.exe` suffix removed, if present.
pub open spec fn strip_exe_suffix(s: Seq<char>) -> Seq<char> {
    if has_exe_suffix(s) {
        s.take(s.len() - 4)
    } else {
        s
    }
}

/// The first separator kind that occurs anywhere in the name, in the fixed
/// order hyphen, underscore, dot.
pub open spec fn separator_of(s: Seq<char>) -> Option<char> {
    if s.contains('-') {
        Some('-')
    } else if s.contains('_') {
        Some('_')
    } else if s.contains('.') {
        Some('.')
    } else {
        None
    }
}

/// Rule two: each separator becomes a single space and the first character
/// of each segment is uppercased; the rest of a segment is unchanged.
pub open spec fn split_title_case(s: Seq<char>, sep: char) -> Seq<char> {
    Seq::new(
        s.len(),
        |i: int|
            if s[i] == sep {
                ' '
            } else if i == 0 || s[i - 1] == sep {
                upper_char(s[i])
            } else {
                s[i]
            },
    )
}

/// Whether every character is an ASCII lowercase letter or digit.
pub open spec fn all_lower_or_digit(s: Seq<char>) -> bool {
    forall|i: int| 0 <= i < s.len() ==> is_ascii_lower(s[i]) || is_ascii_digit(s[i])
}

/// Rule three: uppercase only the first character.
pub open spec fn capitalize_first(s: Seq<char>) -> Seq<char> {
    if s.len() == 0 {
        s
    } else {
        seq![upper_char(s[0])] + s.skip(1)
    }
}

/// An internal uppercase letter that begins a new word: preceded by a
/// lowercase letter or digit and itself followed by a lowercase letter.
pub open spec fn starts_new_word(s: Seq<char>, i: int) -> bool {
    &&& 0 < i
    &&& i + 1 < s.len()
    &&& is_ascii_upper(s[i])
    &&& (is_ascii_lower(s[i - 1]) || is_ascii_digit(s[i - 1]))
    &&& is_ascii_lower(s[i + 1])
}

/// Rule four's insertion pass, from position `i` on: a space goes in front
/// of every character that begins a new word.
pub open spec fn space_words_from(s: Seq<char>, i: int) -> Seq<char>
    decreases s.len() - i,
{
    if i < 0 || i >= s.len() {
        Seq::empty()
    } else if starts_new_word(s, i) {
        seq![' ', s[i]] + space_words_from(s, i + 1)
    } else {
        seq![s[i]] + space_words_from(s, i + 1)
    }
}

/// Rule four's insertion pass over the whole name.
pub open spec fn space_words(s: Seq<char>) -> Seq<char> {
    space_words_from(s, 0)
}

/// Runs of spaces collapsed to a single space, leading and trailing spaces
/// removed.
pub open spec fn collapse_spaces(s: Seq<char>) -> Seq<char>
    decreases s.len(),
{
    if s.len() == 0 {
        s
    } else if s[0] == ' ' {
        collapse_spaces(s.skip(1))
    } else {
        let rest = collapse_spaces(s.skip(1));
        if s.len() >= 2 && s[1] == ' ' {
            if rest.len() == 0 {
                seq![s[0]]
            } else {
                seq![s[0], ' '] + rest
            }
        } else {
            seq![s[0]] + rest
        }
    }
}

/// What [`normalize`] returns: the raw identifier after rule one and then
/// whichever of rules two, three, four applies first.
pub open spec fn normalize_spec(raw: Seq<char>) -> Seq<char> {
    let t = strip_exe_suffix(raw);
    match separator_of(t) {
        Some(sep) => split_title_case(t, sep),
        None => if all_lower_or_digit(t) {
            capitalize_first(t)
        } else {
            collapse_spaces(space_words(t))
        },
    }
}

/// Removes a trailing `.exe`, compared case-insensitively, if present.
fn strip_suffix_chars(v: &mut Vec<char>)
    ensures
        final(v)@ == strip_exe_suffix(old(v)@),
{
    let n = v.len();
    if n >= 4 && v[n - 4] == '.' && to_lower(v[n - 3]) == 'e' && to_lower(v[n - 2]) == 'x'
        && to_lower(v[n - 1]) == 'e' {
        v.truncate(n - 4);
        assert(v@ =~= strip_exe_suffix(old(v)@));
    }
}

/// Applies rule two to the character vector.
fn split_title_case_chars(v: &Vec<char>, sep: char) -> (r: Vec<char>)
    ensures
        r@ == split_title_case(v@, sep),
{
    let mut out: Vec<char> = Vec::new();
    let mut i: usize = 0;
    while i < v.len()
        invariant
            i <= v@.len(),
            out@.len() == i,
            forall|j: int| 0 <= j < i ==> out@[j] == #[trigger] split_title_case(v@, sep)[j],
        decreases v@.len() - i,
    {
        let c = v[i];
        if c == sep {
            out.push(' ');
        } else if i == 0 || v[i - 1] == sep {
            out.push(to_upper(c));
        } else {
            out.push(c);
        }
        i = i + 1;
    }
    assert(out@ =~= split_title_case(v@, sep));
    out
}

/// Applies rule four's insertion pass to the character vector.
fn space_words_chars(v: &Vec<char>) -> (r: Vec<char>)
    ensures
        r@ == space_words(v@),
{
    let mut out: Vec<char> = Vec::new();
    let mut i: usize = 0;
    while i < v.len()
        invariant
            i <= v@.len(),
            out@ + space_words_from(v@, i as int) == space_words(v@),
        decreases v@.len() - i,
    {
        let c = v[i];
        let new_word = 0 < i && i + 1 < v.len() && is_upper(c) && (is_lower(v[i - 1]) || is_digit(
            v[i - 1],
        )) && is_lower(v[i + 1]);
        proof {
            assert(new_word == starts_new_word(v@, i as int));
        }
        let ghost prev = out@;
        if new_word {
            out.push(' ');
            out.push(c);
            proof {
                assert(space_words_from(v@, i as int) == seq![' ', v@[i as int]]
                    + space_words_from(v@, i as int + 1));
                assert(out@ + space_words_from(v@, i as int + 1) =~= prev + space_words_from(
                    v@,
                    i as int,
                ));
            }
        } else {
            out.push(c);
            proof {
                assert(space_words_from(v@, i as int) == seq![v@[i as int]] + space_words_from(
                    v@,
                    i as int + 1,
                ));
                assert(out@ + space_words_from(v@, i as int + 1) =~= prev + space_words_from(
                    v@,
                    i as int,
                ));
            }
        }
        i = i + 1;
    }
    assert(out@ =~= out@ + space_words_from(v@, v@.len() as int));
    out
}

/// Collapses runs of spaces and trims, from position `i` on.
fn collapse_chars_from(v: &Vec<char>, i: usize) -> (r: Vec<char>)
    requires
        i <= v@.len(),
    ensures
        r@ == collapse_spaces(v@.skip(i as int)),
    decreases v@.len() - i,
{
    if i >= v.len() {
        let out: Vec<char> = Vec::new();
        assert(v@.skip(i as int).len() == 0);
        out
    } else if v[i] == ' ' {
        let r = collapse_chars_from(v, i + 1);
        assert(v@.skip(i as int).skip(1) =~= v@.skip(i as int + 1));
        r
    } else {
        let mut rest = collapse_chars_from(v, i + 1);
        assert(v@.skip(i as int).skip(1) =~= v@.skip(i as int + 1));
        let mut out: Vec<char> = Vec::new();
        out.push(v[i]);
        if i + 1 < v.len() && v[i + 1] == ' ' {
            if rest.len() == 0 {
                assert(out@ =~= collapse_spaces(v@.skip(i as int)));
                out
            } else {
                out.push(' ');
                out.append(&mut rest);
                assert(out@ =~= collapse_spaces(v@.skip(i as int)));
                out
            }
        } else {
            out.append(&mut rest);
            assert(out@ =~= collapse_spaces(v@.skip(i as int)));
            out
        }
    }
}

/// Whether every character is an ASCII lowercase letter or digit.
fn all_lower_or_digit_chars(v: &Vec<char>) -> (r: bool)
    ensures
        r == all_lower_or_digit(v@),
{
    let mut i: usize = 0;
    while i < v.len()
        invariant
            i <= v@.len(),
            forall|j: int| 0 <= j < i ==> is_ascii_lower(v@[j]) || is_ascii_digit(v@[j]),
        decreases v@.len() - i,
    {
        if !is_lower(v[i]) && !is_digit(v[i]) {
            return false;
        }
        i = i + 1;
    }
    true
}

/// Converts a raw executable identifier into a human-readable display
/// label, by the rules listed at the top of this module.
pub fn normalize(raw: &str) -> (r: String)
    ensures
        r@ == normalize_spec(raw@),
{
    let v = str_chars(raw);
    let out = normalize_chars(v);
    chars_to_string(&out)
}

/// [`normalize`] on a character vector.
fn normalize_chars(v: Vec<char>) -> (r: Vec<char>)
    ensures
        r@ == normalize_spec(v@),
{
    let ghost raw = v@;
    let mut v = v;
    strip_suffix_chars(&mut v);
    proof {
        assert(v@ == strip_exe_suffix(raw));
    }
    let ghost t = v@;
    let sep: Option<char> = if contains_char(&v, '-') {
        Some('-')
    } else if contains_char(&v, '_') {
        Some('_')
    } else if contains_char(&v, '.') {
        Some('.')
    } else {
        None
    };
    proof {
        assert(sep == separator_of(v@));
    }
    let out: Vec<char> = match sep {
        Some(c) => {
            let r = split_title_case_chars(&v, c);
            proof {
                assert(r@ == normalize_spec(raw));
            }
            r
        },
        None => {
            if all_lower_or_digit_chars(&v) {
                if v.len() == 0 {
                    proof {
                        assert(v@ == normalize_spec(raw));
                    }
                    v
                } else {
                    let mut out: Vec<char> = Vec::new();
                    out.push(to_upper(v[0]));
                    let mut j: usize = 1;
                    while j < v.len()
                        invariant
                            1 <= j <= v@.len(),
                            v@.len() >= 1,
                            out@ == seq![upper_char(v@[0])] + v@.skip(1).take(j as int - 1),
                        decreases v@.len() - j,
                    {
                        out.push(v[j]);
                        assert((seq![upper_char(v@[0])] + v@.skip(1).take(j as int - 1)).push(
                            v@[j as int],
                        ) =~= seq![upper_char(v@[0])] + v@.skip(1).take(j as int));
                        j = j + 1;
                    }
                    assert(out@ =~= capitalize_first(v@));
                    assert(out@ == normalize_spec(raw));
                    out
                }
            } else {
                let spaced = space_words_chars(&v);
                let r = collapse_chars_from(&spaced, 0);
                proof {
                    assert(spaced@.skip(0) =~= spaced@);
                    assert(r@ == normalize_spec(raw));
                }
                r
            }
        },
    };
    out
}

/// Whether the three characters space, hyphen, space stand at `i`.
pub open spec fn title_sep_at(t: Seq<char>, i: int) -> bool {
    &&& 0 <= i
    &&& i + 3 <= t.len()
    &&& t[i] == ' '
    &&& t[i + 1] == '-'
    &&& t[i + 2] == ' '
}

/// One past the last ` - ` separator that a left-to-right scan from `i`
/// consumes (occurrences never overlap); negative where none remains.
pub open spec fn last_sep_end_from(t: Seq<char>, i: int) -> int
    decreases t.len() - i,
{
    if i < 0 || i + 3 > t.len() {
        -1
    } else if title_sep_at(t, i) {
        let rest = last_sep_end_from(t, i + 3);
        if rest >= 0 {
            rest
        } else {
            i + 3
        }
    } else {
        last_sep_end_from(t, i + 1)
    }
}

/// The title's tail after its last ` - ` separator, where it has one.
pub open spec fn title_tail(t: Seq<char>) -> Option<Seq<char>> {
    let e = last_sep_end_from(t, 0);
    if e >= 0 {
        Some(t.skip(e))
    } else {
        None
    }
}

/// What stands after the last backslash; the whole text where there is
/// none.
pub open spec fn after_last_backslash(s: Seq<char>) -> Seq<char>
    decreases s.len(),
{
    if s.len() == 0 {
        s
    } else if s.last() == '\\' {
        Seq::empty()
    } else {
        after_last_backslash(s.drop_last()).push(s.last())
    }
}

/// The executable's file name: what stands after the last backslash of an
/// absolute `C:\` path; any other path is taken whole.
pub open spec fn file_name_of(path: Seq<char>) -> Seq<char> {
    if path.len() >= 3 && path[0] == 'C' && path[1] == ':' && path[2] == '\\' {
        after_last_backslash(path)
    } else {
        path
    }
}

/// The fixed special cases, matched on the path's suffix before any other
/// rule: a handful of executables whose generated label would miss the
/// product's own spelling.
pub open spec fn special_case_of(path: Seq<char>) -> Option<Seq<char>> {
    if "Spotify.exe"@.is_suffix_of(path) {
        Some("Spotify"@)
    } else if "datagrip64.exe"@.is_suffix_of(path) {
        Some("DataGrip"@)
    } else {
        None
    }
}

/// What [`pretty_process_name`] returns: the special case for the path,
/// where one matches; else the window title's tail after its last ` - `,
/// else the whole title where it is non-empty, else the normalized
/// executable file name.
pub open spec fn pretty_name_spec(path: Seq<char>, title: Seq<char>) -> Seq<char> {
    match special_case_of(path) {
        Some(name) => name,
        None => match title_tail(title) {
            Some(p) => p,
            None => if title.len() > 0 {
                title
            } else {
                normalize_spec(file_name_of(path))
            },
        },
    }
}

/// The characters from `from` on, as a fresh vector.
fn copy_from(v: &Vec<char>, from: usize) -> (r: Vec<char>)
    requires
        from <= v@.len(),
    ensures
        r@ == v@.skip(from as int),
{
    let mut out: Vec<char> = Vec::new();
    let mut j: usize = from;
    while j < v.len()
        invariant
            from <= j <= v@.len(),
            out@ == v@.subrange(from as int, j as int),
        decreases v@.len() - j,
    {
        out.push(v[j]);
        assert(v@.subrange(from as int, j as int).push(v@[j as int]) =~= v@.subrange(
            from as int,
            j as int + 1,
        ));
        j = j + 1;
    }
    assert(out@ =~= v@.skip(from as int));
    out
}

/// Executable counterpart of [`last_sep_end_from`].
fn last_sep_end_chars(v: &Vec<char>, i: usize) -> (r: Option<usize>)
    requires
        i <= v@.len(),
    ensures
        match r {
            Some(e) => e as int == last_sep_end_from(v@, i as int) && e <= v@.len(),
            None => last_sep_end_from(v@, i as int) == -1,
        },
    decreases v@.len() - i,
{
    if v.len() < 3 || i > v.len() - 3 {
        None
    } else if v[i] == ' ' && v[i + 1] == '-' && v[i + 2] == ' ' {
        match last_sep_end_chars(v, i + 3) {
            Some(e) => Some(e),
            None => Some(i + 3),
        }
    } else {
        last_sep_end_chars(v, i + 1)
    }
}

/// Where the last backslash stands at `k` and none follows, everything
/// after position `k` is the tail.
proof fn lemma_after_backslash_at(s: Seq<char>, k: int)
    requires
        0 <= k < s.len(),
        s[k] == '\\',
        forall|j: int| k < j < s.len() ==> s[j] != '\\',
    ensures
        after_last_backslash(s) == s.skip(k + 1),
    decreases s.len(),
{
    if k == s.len() - 1 {
        assert(s.last() == '\\');
        assert(after_last_backslash(s) =~= s.skip(k + 1));
    } else {
        assert(s.last() != '\\');
        lemma_after_backslash_at(s.drop_last(), k);
        assert(after_last_backslash(s) == after_last_backslash(s.drop_last()).push(s.last()));
        assert(s.drop_last().skip(k + 1).push(s.last()) =~= s.skip(k + 1));
    }
}

/// Where no backslash stands anywhere, the tail is the whole text.
proof fn lemma_after_backslash_none(s: Seq<char>)
    requires
        forall|j: int| 0 <= j < s.len() ==> s[j] != '\\',
    ensures
        after_last_backslash(s) == s,
    decreases s.len(),
{
    if s.len() > 0 {
        lemma_after_backslash_none(s.drop_last());
        assert(after_last_backslash(s) =~= s);
    }
}

/// Executable counterpart of [`after_last_backslash`].
fn after_last_backslash_chars(v: &Vec<char>) -> (r: Vec<char>)
    ensures
        r@ == after_last_backslash(v@),
{
    let mut k: usize = v.len();
    while k > 0
        invariant
            k <= v@.len(),
            forall|j: int| k <= j < v@.len() ==> v@[j] != '\\',
        decreases k,
    {
        if v[k - 1] == '\\' {
            let r = copy_from(v, k);
            proof {
                lemma_after_backslash_at(v@, k as int - 1);
            }
            return r;
        }
        k = k - 1;
    }
    let r = copy_from(v, 0);
    proof {
        lemma_after_backslash_none(v@);
        assert(v@.skip(0) =~= v@);
    }
    r
}

/// A display label for a window's process: the special case for the path,
/// where one matches; else the window title's tail after its last ` - `,
/// else the whole title where it is non-empty, else the executable file
/// name of the path, normalized.
pub fn pretty_process_name(path: &str, title: &str) -> (r: String)
    ensures
        r@ == pretty_name_spec(path@, title@),
{
    let pv = str_chars(path);
    let spotify = str_chars("Spotify.exe");
    if is_char_suffix(&spotify, &pv) {
        return "Spotify".to_owned();
    }
    let datagrip = str_chars("datagrip64.exe");
    if is_char_suffix(&datagrip, &pv) {
        return "DataGrip".to_owned();
    }
    let tv = str_chars(title);
    match last_sep_end_chars(&tv, 0) {
        Some(e) => {
            let out = copy_from(&tv, e);
            chars_to_string(&out)
        },
        None => {
            if tv.len() > 0 {
                title.to_owned()
            } else {
                let name: Vec<char> = if pv.len() >= 3 && pv[0] == 'C' && pv[1] == ':' && pv[2]
                    == '\\' {
                    after_last_backslash_chars(&pv)
                } else {
                    pv
                };
                let out = normalize_chars(name);
                chars_to_string(&out)
            }
        },
    }
}

} // verus!
