//! Names and paths of a backup run: the archive name made from a template and a point
//! in time, storage keys, transient file paths, and the placeholder of command actions.

use crate::text::replace;
use crate::text::lemma_replace_keeps_text_without_pattern;
use crate::text::replace_all;
use crate::text::separated;
use crate::text::signed_decimal;
use crate::text::signed_decimal_string;
use crate::text::two_digit_string;
use crate::text::two_digits;
use crate::text::with_separator;
use chrono::Datelike;
use chrono::Timelike;
use rand::distributions::Alphanumeric;
use rand::Rng;
use vstd::prelude::*;
use vstd::string::StringExecFns;

verus! {

/// The number of characters in the random part of a transient file's name.
pub const SUFFIX_LEN: usize = 16;

/// A point in time, in UTC, by its calendar fields.
#[derive(Clone, Copy, Debug, PartialEq, Eq, Structural)]
pub struct Timestamp {
    pub year: i32,
    pub month: u32,
    pub day: u32,
    pub hour: u32,
    pub minute: u32,
    pub second: u32,
}

impl Timestamp {
    /// Whether the fields are in the ranges of a calendar date and a time of day.
    pub open spec fn in_range(self) -> bool {
        &&& 1 <= self.month <= 12
        &&& 1 <= self.day <= 31
        &&& self.hour <= 23
        &&& self.minute <= 59
        &&& self.second <= 59
    }

    /// The current time in UTC.
    pub fn now() -> (now: Timestamp)
        ensures
            now.in_range(),
    {
        utc_now()
    }
}

/// `chrono::Utc::now`, read through the `Datelike` and `Timelike` accessors `year`,
/// `month`, `day`, `hour`, `minute` and `second`. The month is from 1 to 12, the day from
/// 1 to 31, the hour from 0 to 23, minute and second from 0 to 59, as chrono documents
/// them. The call fails with a panic on a machine whose clock is set before 1970.
#[verifier::external_body]
fn utc_now() -> (now: Timestamp)
    ensures
        now.in_range(),
{
    let now = chrono::Utc::now();
    Timestamp {
        year: now.year(),
        month: now.month(),
        day: now.day(),
        hour: now.hour(),
        minute: now.minute(),
        second: now.second(),
    }
}

/// The name that a template stands for at a point in time: `{year}` gives way to the
/// year, then `{month}`, `{day}`, `{hour}`, `{minute}` and `{second}` to the field of
/// that name in two digits at least.
pub open spec fn resolved_name(template: Seq<char>, at: Timestamp) -> Seq<char> {
    let with_year = replace_all(template, "{year}"@, signed_decimal(at.year as int));
    let with_month = replace_all(with_year, "{month}"@, two_digits(at.month as nat));
    let with_day = replace_all(with_month, "{day}"@, two_digits(at.day as nat));
    let with_hour = replace_all(with_day, "{hour}"@, two_digits(at.hour as nat));
    let with_minute = replace_all(with_hour, "{minute}"@, two_digits(at.minute as nat));
    replace_all(with_minute, "{second}"@, two_digits(at.second as nat))
}

/// A template without an opening brace holds no token: it is the name, at any time.
pub proof fn lemma_plain_name_is_kept(template: Seq<char>, at: Timestamp)
    requires
        !template.contains('{'),
    ensures
        resolved_name(template, at) == template,
{
    reveal_strlit("{year}");
    reveal_strlit("{month}");
    reveal_strlit("{day}");
    reveal_strlit("{hour}");
    reveal_strlit("{minute}");
    reveal_strlit("{second}");
    lemma_replace_keeps_text_without_pattern(
        template,
        "{year}"@,
        signed_decimal(at.year as int),
    );
    lemma_replace_keeps_text_without_pattern(template, "{month}"@, two_digits(at.month as nat));
    lemma_replace_keeps_text_without_pattern(template, "{day}"@, two_digits(at.day as nat));
    lemma_replace_keeps_text_without_pattern(template, "{hour}"@, two_digits(at.hour as nat));
    lemma_replace_keeps_text_without_pattern(
        template,
        "{minute}"@,
        two_digits(at.minute as nat),
    );
    lemma_replace_keeps_text_without_pattern(
        template,
        "{second}"@,
        two_digits(at.second as nat),
    );
}

/// Resolves the date and time tokens of a name template at the given point in time.
pub fn resolve_name(template: &str, at: &Timestamp) -> (name: String)
    ensures
        name@ == resolved_name(template@, *at),
{
    let year = signed_decimal_string(at.year);
    let month = two_digit_string(at.month);
    let day = two_digit_string(at.day);
    let hour = two_digit_string(at.hour);
    let minute = two_digit_string(at.minute);
    let second = two_digit_string(at.second);
    let name = replace(template, "{year}", year.as_str());
    let name = replace(name.as_str(), "{month}", month.as_str());
    let name = replace(name.as_str(), "{day}", day.as_str());
    let name = replace(name.as_str(), "{hour}", hour.as_str());
    let name = replace(name.as_str(), "{minute}", minute.as_str());
    replace(name.as_str(), "{second}", second.as_str())
}

/// The key under which an archive is stored: the prefix of the storage backend followed
/// by the resolved name of the target.
pub fn composite_key(key_prefix: &str, name: &str) -> (key: String)
    ensures
        key@ == key_prefix@ + name@,
{
    let mut key = String::from_str(key_prefix);
    key.append(name);
    key
}

/// Whether a character is an ASCII letter or digit.
pub open spec fn is_alphanumeric(c: char) -> bool {
    let code = c as u32;
    (48 <= code <= 57) || (65 <= code <= 90) || (97 <= code <= 122)
}

/// Whether a text can be the random part of a transient file's name.
pub open spec fn is_suffix(text: Seq<char>) -> bool {
    &&& text.len() == SUFFIX_LEN
    &&& forall|i: int| 0 <= i < text.len() ==> is_alphanumeric(#[trigger] text[i])
}

/// Whether a path names a transient file in the given directory: the directory, closed
/// by a separator unless it is empty, then a random part.
pub open spec fn is_transient_path(path: Seq<char>, temp_dir: Seq<char>) -> bool {
    exists|suffix: Seq<char>| is_suffix(suffix) && path == #[trigger] join(temp_dir, suffix)
}

/// The path of the file `name` in the directory `dir`.
pub open spec fn join(dir: Seq<char>, name: Seq<char>) -> Seq<char> {
    with_separator(dir) + name
}

/// The path of the file `name` in the directory `dir`.
pub fn join_path(dir: &str, name: &str) -> (path: String)
    ensures
        path@ == join(dir@, name@),
{
    let mut path = separated(dir);
    path.append(name);
    path
}

/// `count` characters drawn from `rand::thread_rng()` by
/// `sample_iter(&rand::distributions::Alphanumeric)`: each is one of the letters `A` to
/// `Z` and `a` to `z` and the digits `0` to `9`. Which ones is left open.
#[verifier::external_body]
fn random_alphanumeric(count: usize) -> (text: String)
    ensures
        text@.len() == count,
        forall|i: int| 0 <= i < text@.len() ==> is_alphanumeric(#[trigger] text@[i]),
{
    rand::thread_rng().sample_iter(&Alphanumeric).take(count).map(char::from).collect()
}

/// A fresh path for a transient file in the given directory, under a random name.
pub fn transient_path(temp_dir: &str) -> (path: String)
    ensures
        is_transient_path(path@, temp_dir@),
{
    let suffix = random_alphanumeric(SUFFIX_LEN);
    join_path(temp_dir, suffix.as_str())
}

/// The token that stands for the capture file of a command action.
pub open spec fn placeholder() -> Seq<char> {
    "%BKP_CMD_TMPFILE%"@
}

/// The text with every placeholder token replaced by the path of a capture file.
pub fn substitute_placeholder(text: &str, capture_path: &str) -> (out: String)
    ensures
        out@ == replace_all(text@, placeholder(), capture_path@),
{
    replace(text, "%BKP_CMD_TMPFILE%", capture_path)
}

/// The texts of a list of strings.
pub open spec fn texts(list: Seq<String>) -> Seq<Seq<char>> {
    Seq::new(list.len(), |i: int| list[i]@)
}

/// The names and values of a list of variables.
pub open spec fn variables(list: Seq<(String, String)>) -> Seq<(Seq<char>, Seq<char>)> {
    Seq::new(list.len(), |i: int| (list[i].0@, list[i].1@))
}

/// The arguments with the placeholder token replaced by the path of the capture file.
pub open spec fn substituted_args(args: Seq<Seq<char>>, capture_path: Seq<char>) -> Seq<
    Seq<char>,
> {
    Seq::new(args.len(), |i: int| replace_all(args[i], placeholder(), capture_path))
}

/// The inherited variables, followed by the declared ones with the placeholder token in
/// their values replaced by the path of the capture file.
pub open spec fn overlaid(
    inherited: Seq<(Seq<char>, Seq<char>)>,
    declared: Seq<(Seq<char>, Seq<char>)>,
    capture_path: Seq<char>,
) -> Seq<(Seq<char>, Seq<char>)> {
    inherited + Seq::new(
        declared.len(),
        |i: int| (declared[i].0, replace_all(declared[i].1, placeholder(), capture_path)),
    )
}

/// The value of a variable in a list in which the last occurrence of a name counts.
pub open spec fn lookup(list: Seq<(Seq<char>, Seq<char>)>, name: Seq<char>) -> Option<Seq<char>>
    decreases list.len(),
{
    if list.len() == 0 {
        None
    } else if list.last().0 == name {
        Some(list.last().1)
    } else {
        lookup(list.drop_last(), name)
    }
}

/// In an environment made of two lists, a variable has the value that the second list
/// gives it, and the value of the first list only where the second does not name it.
pub proof fn lemma_later_variables_override(
    first: Seq<(Seq<char>, Seq<char>)>,
    second: Seq<(Seq<char>, Seq<char>)>,
    name: Seq<char>,
)
    ensures
        lookup(first + second, name) == match lookup(second, name) {
            Some(value) => Some(value),
            None => lookup(first, name),
        },
    decreases second.len(),
{
    if second.len() == 0 {
        assert(first + second == first);
    } else {
        assert((first + second).last() == second.last());
        assert((first + second).drop_last() == first + second.drop_last());
        lemma_later_variables_override(first, second.drop_last(), name);
    }
}

/// The arguments of a command, each with the placeholder token replaced by the path of
/// the capture file.
pub fn command_arguments(args: &Vec<String>, capture_path: &str) -> (out: Vec<String>)
    ensures
        texts(out@) == substituted_args(texts(args@), capture_path@),
{
    let mut out: Vec<String> = Vec::new();
    let mut i: usize = 0;
    while i < args.len()
        invariant
            i <= args.len(),
            out@.len() == i,
            forall|k: int|
                0 <= k < i ==> (#[trigger] out@[k])@ == replace_all(
                    args@[k]@,
                    placeholder(),
                    capture_path@,
                ),
        decreases args.len() - i,
    {
        out.push(substitute_placeholder(args[i].as_str(), capture_path));
        i += 1;
    }
    assert(texts(out@) =~= substituted_args(texts(args@), capture_path@));
    out
}

/// The environment of a command: the inherited variables, followed by the declared
/// ones, whose values have the placeholder token replaced by the path of the capture
/// file. Where a name occurs more than once, the last occurrence counts.
pub fn command_environment(
    inherited: &Vec<(String, String)>,
    declared: &Vec<(String, String)>,
    capture_path: &str,
) -> (out: Vec<(String, String)>)
    ensures
        variables(out@) == overlaid(variables(inherited@), variables(declared@), capture_path@),
{
    let mut out: Vec<(String, String)> = Vec::new();
    let mut i: usize = 0;
    while i < inherited.len()
        invariant
            i <= inherited.len(),
            out@.len() == i,
            forall|k: int|
                0 <= k < i ==> (#[trigger] out@[k]).0@ == inherited@[k].0@ && out@[k].1@
                    == inherited@[k].1@,
        decreases inherited.len() - i,
    {
        out.push((inherited[i].0.clone(), inherited[i].1.clone()));
        i += 1;
    }
    let mut j: usize = 0;
    while j < declared.len()
        invariant
            j <= declared.len(),
            out@.len() == inherited@.len() + j,
            forall|k: int|
                0 <= k < inherited@.len() ==> (#[trigger] out@[k]).0@ == inherited@[k].0@
                    && out@[k].1@ == inherited@[k].1@,
            forall|k: int|
                0 <= k < j ==> (#[trigger] out@[inherited@.len() + k]).0@ == declared@[k].0@
                    && out@[inherited@.len() + k].1@ == replace_all(
                    declared@[k].1@,
                    placeholder(),
                    capture_path@,
                ),
        decreases declared.len() - j,
    {
        let value = substitute_placeholder(declared[j].1.as_str(), capture_path);
        out.push((declared[j].0.clone(), value));
        j += 1;
    }
    proof {
        let expected = overlaid(variables(inherited@), variables(declared@), capture_path@);
        assert forall|i: int| 0 <= i < expected.len() implies variables(out@)[i]
            == expected[i] by {
            if i >= inherited@.len() {
                let k = i - inherited@.len();
                assert(out@[inherited@.len() + k].0@ == declared@[k].0@);
            } else {
                assert(out@[i].0@ == inherited@[i].0@);
            }
        }
        assert(variables(out@) =~= expected);
    }
    out
}

} // verus!
