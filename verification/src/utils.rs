use vstd::prelude::*;
use vstd::string::StrSliceExecFns;
use vstd::string::StringSliceAdditionalSpecFns;
use vstd::string::StringExecFns;
use std::time::{Duration, SystemTime, SystemTimeError};

use crate::types::ModuleConfig;

verus! {

/// The shell that runs the application's command.
pub const PATH_BASH: &'static str = "/bin/bash";

/// The program that signals an idle application.
pub const PATH_KILL: &'static str = "/bin/kill";

/// The program that kills whatever listens on a reserved port.
pub const PATH_FUSER: &'static str = "/bin/fuser";

/// Seconds past its idle timeout after which an application is killed with `-9`.
pub const HARDKILL_TIMEOUT: u64 = 60;

/// Seconds without requests after which an application is stopped, when its
/// directive does not say otherwise: 15 minutes.
pub const DEFAULT_IDLE_TIMEOUT: u64 = 900;

/// Seconds to keep trying to reach a freshly started application.
pub const CONNECT_WAIT_SECS: u64 = 30;

/// Seconds that one connection attempt may take.
pub const CONNECT_ATTEMPT_SECS: u64 = 2;

/// Milliseconds to pause between two connection attempts.
pub const CONNECT_RETRY_MILLIS: u64 = 500;

/// Whether `b` is an ASCII decimal digit.
pub open spec fn is_digit(b: u8) -> bool {
    48 <= b <= 57
}

/// Whether every byte of `s` is an ASCII decimal digit.
pub open spec fn all_digits(s: Seq<u8>) -> bool {
    forall|i: int| 0 <= i < s.len() ==> is_digit(#[trigger] s[i])
}

/// The value of the decimal digits in `s`, most significant first.
pub open spec fn digits_value(s: Seq<u8>) -> nat
    decreases s.len(),
{
    if s.len() == 0 {
        0
    } else {
        digits_value(s.drop_last()) * 10 + (s.last() - 48) as nat
    }
}

/// The digits of an unsigned number's text: everything after an optional leading `+`.
pub open spec fn unsigned_digits(s: Seq<u8>) -> Seq<u8> {
    if s.len() > 0 && s[0] == 43u8 {
        s.drop_first()
    } else {
        s
    }
}

/// How std reads an unsigned integer of at most `max` from the bytes `s`:
/// an optional `+`, then one or more decimal digits whose value is at most `max`.
pub open spec fn parse_unsigned(s: Seq<u8>, max: nat) -> Option<nat> {
    let d = unsigned_digits(s);
    if d.len() > 0 && all_digits(d) && digits_value(d) <= max {
        Some(digits_value(d))
    } else {
        None
    }
}

/// A prefix of a string of digits is worth no more than the whole string.
proof fn lemma_digits_prefix_le(s: Seq<u8>, i: int)
    requires
        all_digits(s),
        0 <= i <= s.len(),
    ensures
        digits_value(s.take(i)) <= digits_value(s),
    decreases s.len(),
{
    if i < s.len() {
        let t = s.drop_last();
        assert(t.take(i) =~= s.take(i));
        assert(all_digits(t)) by {
            assert forall|j: int| 0 <= j < t.len() implies is_digit(#[trigger] t[j]) by {
                assert(t[j] == s[j]);
            }
        }
        lemma_digits_prefix_le(t, i);
    } else {
        assert(s.take(i) =~= s);
    }
}

/// Reads the bytes `bytes[0..end]` as an unsigned integer of at most `max`,
/// as std's `from_str` does for an unsigned type whose largest value is `max`.
pub fn parse_unsigned_prefix(bytes: &[u8], end: usize, max: u64) -> (r: Option<u64>)
    requires
        end <= bytes@.len(),
    ensures
        match r {
            Some(v) => parse_unsigned(bytes@.take(end as int), max as nat) == Some(v as nat),
            None => parse_unsigned(bytes@.take(end as int), max as nat) is None,
        },
{
    let ghost s = bytes@.take(end as int);
    let start: usize = if end > 0 && bytes[0] == 43u8 { 1 } else { 0 };
    let ghost d = unsigned_digits(s);
    assert(d =~= s.subrange(start as int, end as int));
    if start == end {
        return None;
    }
    let mut acc: u64 = 0;
    let mut i: usize = start;
    while i < end
        invariant
            start <= i <= end,
            end <= bytes@.len(),
            s == bytes@.take(end as int),
            d == unsigned_digits(s),
            d =~= s.subrange(start as int, end as int),
            all_digits(d.take(i - start)),
            acc as nat == digits_value(d.take(i - start)),
            acc <= max,
        decreases end - i,
    {
        let b: u8 = bytes[i];
        let ghost k: int = i - start;
        assert(d[k] == b);
        if b < 48u8 || b > 57u8 {
            assert(!all_digits(d));
            return None;
        }
        assert(d.take(k + 1).drop_last() =~= d.take(k));
        assert(all_digits(d.take(k + 1))) by {
            assert forall|j: int| 0 <= j < k + 1 implies is_digit(#[trigger] d.take(k + 1)[j]) by {
                if j < k {
                    assert(d.take(k + 1)[j] == d.take(k)[j]);
                }
            }
        }
        let next: u128 = (acc as u128) * 10 + ((b - 48u8) as u128);
        assert(next == digits_value(d.take(k + 1)));
        if next > max as u128 {
            proof {
                if all_digits(d) {
                    lemma_digits_prefix_le(d, k + 1);
                }
            }
            return None;
        }
        acc = next as u64;
        i = i + 1;
    }
    assert(d.take(i - start) =~= d);
    Some(acc)
}

/// How many seconds one unit of a duration suffix stands for:
/// `s`econds, `m`inutes, `h`ours or `d`ays.
pub open spec fn unit_seconds(unit: u8) -> Option<nat> {
    if unit == 115u8 {
        Some(1)
    } else if unit == 109u8 {
        Some(60)
    } else if unit == 104u8 {
        Some(3600)
    } else if unit == 100u8 {
        Some(86400)
    } else {
        None
    }
}

/// What a duration text such as `15m` means: a number followed by one unit byte.
/// The error is the message that names what is wrong with the text.
pub open spec fn duration_outcome(b: Seq<u8>) -> Result<nat, Seq<char>> {
    if b.len() < 2 {
        Err("Input too short"@)
    } else {
        match parse_unsigned(b.drop_last(), u64::MAX as nat) {
            None => Err("Invalid number"@),
            Some(n) => match unit_seconds(b.last()) {
                Some(f) => Ok(n * f),
                None => Err("Unsupported unit"@),
            },
        }
    }
}

/// A duration text that can be read without failing: its last byte is a whole
/// (ASCII) character, and the seconds it names fit in a `u64`.
pub open spec fn duration_input_fits(b: Seq<u8>) -> bool {
    &&& b.len() >= 2 ==> b.last() < 128
    &&& duration_outcome(b) matches Ok(v) ==> v <= u64::MAX
}

/// Whether `parse_duration_to_seconds` can read `input` without failing.
pub fn duration_fits(input: &str) -> (r: bool)
    ensures
        r == duration_input_fits(input.spec_bytes()),
{
    let bytes = input.as_bytes();
    let len: usize = bytes.len();
    if len < 2 {
        return true;
    }
    if bytes[len - 1] >= 128u8 {
        return false;
    }
    assert(bytes@.take(len - 1) =~= bytes@.drop_last());
    let number: u64 = match parse_unsigned_prefix(bytes, len - 1, u64::MAX) {
        Some(n) => n,
        None => return true,
    };
    let unit: u8 = bytes[len - 1];
    let factor: u64 = if unit == 115u8 {
        1
    } else if unit == 109u8 {
        60
    } else if unit == 104u8 {
        3600
    } else if unit == 100u8 {
        86400
    } else {
        return true;
    };
    assert(unit_seconds(unit) == Some(factor as nat));
    assert((number as nat) * (factor as nat) <= (u64::MAX as nat) * 86400) by (nonlinear_arith)
        requires
            factor <= 86400,
    ;
    (number as u128) * (factor as u128) <= u64::MAX as u128
}

/// Reads a duration such as `30s`, `15m`, `2h` or `1d` into seconds.
///
/// The text is split before its last byte, so that byte must be a whole
/// (ASCII) character; and the seconds must fit in a `u64` (see `duration_fits`).
pub fn parse_duration_to_seconds(input: &str) -> (r: Result<u64, &'static str>)
    requires
        duration_input_fits(input.spec_bytes()),
    ensures
        match r {
            Ok(v) => duration_outcome(input.spec_bytes()) == Ok::<nat, Seq<char>>(v as nat),
            Err(e) => duration_outcome(input.spec_bytes()) == Err::<nat, Seq<char>>(e@),
        },
{
    let bytes = input.as_bytes();
    let len: usize = bytes.len();
    if len < 2 {
        return Err("Input too short");
    }
    let number: u64 = match parse_unsigned_prefix(bytes, len - 1, u64::MAX) {
        Some(n) => n,
        None => {
            assert(bytes@.take(len - 1) =~= bytes@.drop_last());
            return Err("Invalid number");
        },
    };
    assert(bytes@.take(len - 1) =~= bytes@.drop_last());
    let unit: u8 = bytes[len - 1];
    if unit == 115u8 {
        assert(number as nat * 1nat == number as nat);
        Ok(number)
    } else if unit == 109u8 {
        Ok(number * 60)
    } else if unit == 104u8 {
        Ok(number * 3600)
    } else if unit == 100u8 {
        assert(number * 3600 <= number * 86400 && number * 3600 * 24 == number * 86400)
            by (nonlinear_arith);
        Ok(number * 3600 * 24)
    } else {
        Err("Unsupported unit")
    }
}

/// What an on/off switch text means.
pub open spec fn on_off_value(s: Seq<char>) -> Option<bool> {
    if s.len() == 2 && s[0] == 'o' && s[1] == 'n' {
        Some(true)
    } else if s.len() == 3 && s[0] == 'o' && s[1] == 'f' && s[2] == 'f' {
        Some(false)
    } else {
        None
    }
}

/// Reads `on` as `true` and `off` as `false`; any other text is refused.
pub fn parse_on_off_to_bool(input: &str) -> (r: Result<bool, &'static str>)
    ensures
        match r {
            Ok(b) => on_off_value(input@) == Some(b),
            Err(e) => on_off_value(input@) is None && e@ == "Invalid input"@,
        },
{
    let n: usize = input.unicode_len();
    if n == 2 && input.get_char(0) == 'o' && input.get_char(1) == 'n' {
        Ok(true)
    } else if n == 3 && input.get_char(0) == 'o' && input.get_char(1) == 'f' && input.get_char(2)
        == 'f' {
        Ok(false)
    } else {
        Err("Invalid input")
    }
}

/// The character of the decimal digit `d`.
pub open spec fn digit_char(d: nat) -> char {
    (48 + d) as char
}

/// The decimal text of `n`, without sign or leading zeros.
pub open spec fn decimal_text(n: nat) -> Seq<char>
    decreases n,
{
    if n < 10 {
        seq![digit_char(n)]
    } else {
        decimal_text(n / 10).push(digit_char(n % 10))
    }
}

/// The one-character text of the decimal digit `d`.
fn digit_str(d: u64) -> (s: &'static str)
    requires
        d < 10,
    ensures
        s@ == seq![digit_char(d as nat)],
{
    if d == 0 {
        proof { reveal_strlit("0"); }
        "0"
    } else if d == 1 {
        proof { reveal_strlit("1"); }
        "1"
    } else if d == 2 {
        proof { reveal_strlit("2"); }
        "2"
    } else if d == 3 {
        proof { reveal_strlit("3"); }
        "3"
    } else if d == 4 {
        proof { reveal_strlit("4"); }
        "4"
    } else if d == 5 {
        proof { reveal_strlit("5"); }
        "5"
    } else if d == 6 {
        proof { reveal_strlit("6"); }
        "6"
    } else if d == 7 {
        proof { reveal_strlit("7"); }
        "7"
    } else if d == 8 {
        proof { reveal_strlit("8"); }
        "8"
    } else {
        proof { reveal_strlit("9"); }
        "9"
    }
}

/// Writes `n` in decimal, as `to_string` does for an unsigned integer.
pub fn decimal_string(n: u64) -> (r: String)
    ensures
        r@ == decimal_text(n as nat),
    decreases n,
{
    if n < 10 {
        String::from_str(digit_str(n))
    } else {
        let mut r = decimal_string(n / 10);
        r.append(digit_str(n % 10));
        r
    }
}

#[verifier::external_type_specification]
#[verifier::external_body]
pub struct ExSystemTime(SystemTime);

#[verifier::external_type_specification]
#[verifier::external_body]
pub struct ExSystemTimeError(SystemTimeError);

/// Calls `SystemTime::now`. The reading depends on the clock, so nothing is
/// claimed of it.
#[verifier::external_body]
fn system_time_now() -> SystemTime {
    SystemTime::now()
}

/// Calls `SystemTime::duration_since` with the Unix epoch: the time elapsed since
/// then, or an error when `t` is earlier. Nothing is claimed of the value.
#[verifier::external_body]
fn since_unix_epoch(t: &SystemTime) -> Result<Duration, SystemTimeError> {
    t.duration_since(std::time::UNIX_EPOCH)
}

/// The whole seconds of a duration, as `Duration::as_secs` gives them.
pub uninterp spec fn duration_secs(d: Duration) -> u64;

/// Calls `Duration::as_secs`: the whole seconds of `d`, a function of `d` alone.
#[verifier::external_body]
fn whole_seconds(d: &Duration) -> (r: u64)
    ensures
        r == duration_secs(*d),
{
    d.as_secs()
}

/// The seconds that a reading of the time since the Unix epoch stands for:
/// its whole seconds, or 0 when the clock was before the epoch.
pub fn secs_or_zero(elapsed: Result<Duration, SystemTimeError>) -> (r: u64)
    ensures
        r == match elapsed {
            Ok(d) => duration_secs(d),
            Err(_) => 0u64,
        },
{
    match elapsed {
        Ok(d) => whole_seconds(&d),
        Err(_) => 0,
    }
}

/// Seconds since the Unix epoch by the system clock: the whole seconds of the
/// clock's reading, or 0 for a clock set before the epoch. Which reading the
/// clock gives is not claimed.
pub fn now_timestamp() -> (r: u64)
    ensures
        r == 0 || exists|d: Duration| r == duration_secs(d),
{
    let now = system_time_now();
    let elapsed = since_unix_epoch(&now);
    let ghost reading = elapsed;
    let r: u64 = secs_or_zero(elapsed);
    proof {
        if let Ok(d) = reading {
            assert(r == duration_secs(d));
        }
    }
    r
}

/// The shell line that starts an application: the login profiles are read
/// first, so that the command sees the usual environment.
pub open spec fn shell_script(command: Seq<char>) -> Seq<char> {
    "source /etc/profile ; source ~/.profile ; "@ + command
}

/// The position of the last `/` in `q`, or -1 when there is none.
pub open spec fn last_slash(q: Seq<char>) -> int
    decreases q.len(),
{
    if q.len() == 0 {
        -1
    } else if q.last() == '/' {
        q.len() - 1
    } else {
        last_slash(q.drop_last())
    }
}

/// A path without the one `/` that may end it (the root `/` stays as it is).
pub open spec fn without_trailing_slash(p: Seq<char>) -> Seq<char> {
    if p.len() > 1 && p.last() == '/' {
        p.drop_last()
    } else {
        p
    }
}

/// The directory that holds the last component of a path: everything before
/// its last `/`; `/` for a component right under the root, and `.` for a path
/// without any `/`.
pub open spec fn parent_dir(p: Seq<char>) -> Seq<char> {
    let q = without_trailing_slash(p);
    let k = last_slash(q);
    if k < 0 {
        "."@
    } else if k == 0 {
        "/"@
    } else {
        q.take(k)
    }
}

/// The last `/` of `q` is at `k` when nothing after `k` is a `/`.
proof fn lemma_last_slash_at(q: Seq<char>, k: int)
    requires
        0 <= k < q.len(),
        q[k] == '/',
        forall|m: int| k < m < q.len() ==> #[trigger] q[m] != '/',
    ensures
        last_slash(q) == k,
    decreases q.len(),
{
    if k < q.len() - 1 {
        let t = q.drop_last();
        assert forall|m: int| k < m < t.len() implies #[trigger] t[m] != '/' by {
            assert(t[m] == q[m]);
        }
        lemma_last_slash_at(t, k);
    }
}

/// Law: the parent of `dir/name`, for a directory not ending in `/` and a name
/// without `/`, is `dir`, with or without a `/` after the name.
pub proof fn law_parent_of_child(dir: Seq<char>, name: Seq<char>)
    requires
        dir.len() > 0,
        dir.last() != '/',
        name.len() > 0,
        forall|m: int| 0 <= m < name.len() ==> #[trigger] name[m] != '/',
    ensures
        parent_dir(dir + seq!['/'] + name) == dir,
        parent_dir(dir + seq!['/'] + name + seq!['/']) == dir,
{
    let p = dir + seq!['/'] + name;
    let k = dir.len() as int;
    assert(p.last() == name.last());
    assert(without_trailing_slash(p) == p);
    assert forall|m: int| k < m < p.len() implies #[trigger] p[m] != '/' by {
        assert(p[m] == name[m - k - 1]);
    }
    lemma_last_slash_at(p, k);
    assert(p.take(k) =~= dir);
    let p2 = p + seq!['/'];
    assert(without_trailing_slash(p2) =~= p);
}

/// The parent directory of `path`, as `parent_dir` describes it.
pub fn parent_dir_of(path: &str) -> (r: String)
    ensures
        r@ == parent_dir(path@),
{
    let n: usize = path.unicode_len();
    let qlen: usize = if n > 1 && path.get_char(n - 1) == '/' { n - 1 } else { n };
    let ghost q = without_trailing_slash(path@);
    assert(q =~= path@.take(qlen as int));
    assert(q.take(qlen as int) =~= q);
    let mut j: usize = qlen;
    while j > 0 && path.get_char(j - 1) != '/'
        invariant
            j <= qlen <= n,
            n == path@.len(),
            q == path@.take(qlen as int),
            last_slash(q) == last_slash(q.take(j as int)),
        decreases j,
    {
        assert(q.take(j as int).drop_last() =~= q.take(j - 1));
        j = j - 1;
    }
    if j > 0 {
        assert(q.take(j as int).last() == '/');
    } else {
        assert(q.take(0) =~= Seq::<char>::empty());
    }
    if j == 0 {
        String::from_str(".")
    } else if j == 1 {
        String::from_str("/")
    } else {
        let r = String::from_str(path.substring_char(0, j - 1));
        assert(r@ =~= q.take(j - 1));
        r
    }
}

/// Whether `c` separates the words of a command.
pub open spec fn is_blank(c: char) -> bool {
    c == ' ' || c == '\t' || c == '\n' || c == '\r'
}

/// The words of `s` from position `i` on, given the words `done` before the
/// current one and the position `start` where the current word began.
pub open spec fn words_from(s: Seq<char>, i: int, start: int, done: Seq<Seq<char>>) -> Seq<
    Seq<char>,
>
    decreases s.len() - i,
{
    if i >= s.len() {
        if start < s.len() {
            done.push(s.subrange(start, s.len() as int))
        } else {
            done
        }
    } else if is_blank(s[i]) {
        words_from(
            s,
            i + 1,
            i + 1,
            if start < i {
                done.push(s.subrange(start, i))
            } else {
                done
            },
        )
    } else {
        words_from(s, i + 1, start, done)
    }
}

/// The words of a command: the runs of characters between blanks.
pub open spec fn words(s: Seq<char>) -> Seq<Seq<char>> {
    words_from(s, 0, 0, seq![])
}

/// The arguments of a command: its words after the first.
pub open spec fn command_args_spec(s: Seq<char>) -> Seq<Seq<char>> {
    if words(s).len() > 0 {
        words(s).drop_first()
    } else {
        seq![]
    }
}

/// The arguments of `command`, where the file whose owner the application runs
/// as by default is looked for.
pub fn command_args(command: &str) -> (r: Vec<String>)
    ensures
        r@.map_values(|w: String| w@) == command_args_spec(command@),
{
    let n: usize = command.unicode_len();
    let ghost s = command@;
    let mut done: Vec<String> = Vec::new();
    let mut start: usize = 0;
    let mut i: usize = 0;
    assert(done@.map_values(|w: String| w@) =~= Seq::<Seq<char>>::empty());
    while i < n
        invariant
            s == command@,
            n == s.len(),
            start <= i <= n,
            words(s) == words_from(s, i as int, start as int, done@.map_values(|w: String| w@)),
        decreases n - i,
    {
        let ghost before = done@.map_values(|w: String| w@);
        if command.get_char(i) == ' ' || command.get_char(i) == '\t' || command.get_char(i) == '\n'
            || command.get_char(i) == '\r' {
            if start < i {
                let w = String::from_str(command.substring_char(start, i));
                done.push(w);
                assert(done@.map_values(|w: String| w@) =~= before.push(s.subrange(
                    start as int,
                    i as int,
                )));
            }
            start = i + 1;
        }
        i = i + 1;
    }
    if start < n {
        let ghost before = done@.map_values(|w: String| w@);
        let w = String::from_str(command.substring_char(start, n));
        done.push(w);
        assert(done@.map_values(|w: String| w@) =~= before.push(s.subrange(start as int, n as int)));
    }
    let ghost all = done@.map_values(|w: String| w@);
    assert(all == words(s));
    if done.len() > 0 {
        done.remove(0);
        assert(done@.map_values(|w: String| w@) =~= all.drop_first());
    } else {
        assert(done@.map_values(|w: String| w@) =~= Seq::<Seq<char>>::empty());
    }
    done
}

/// Whether `w` has no space, tab, carriage return or line feed.
pub open spec fn no_whitespace(w: Seq<char>) -> bool {
    forall|k: int|
        0 <= k < w.len() ==> #[trigger] w[k] != ' ' && w[k] != '\t' && w[k] != '\n' && w[k]
            != '\r'
}

/// Reading through characters that separate nothing leaves the words unchanged.
proof fn lemma_words_skip(s: Seq<char>, i: int, j: int, start: int, done: Seq<Seq<char>>)
    requires
        0 <= i <= j <= s.len(),
        forall|k: int| i <= k < j ==> !is_blank(#[trigger] s[k]),
    ensures
        words_from(s, i, start, done) == words_from(s, j, start, done),
    decreases j - i,
{
    if i < j {
        assert(!is_blank(s[i]));
        lemma_words_skip(s, i + 1, j, start, done);
    }
}

/// Law: the arguments of a command are its whitespace-separated words after
/// the first, each kept whole: a program name followed by one blank and one
/// word without whitespace (a path with slashes included) has exactly that
/// word as its one argument.
pub proof fn law_command_args_keep_words_whole(program: Seq<char>, arg: Seq<char>)
    requires
        program.len() > 0,
        arg.len() > 0,
        no_whitespace(program),
        no_whitespace(arg),
    ensures
        command_args_spec(program + seq![' '] + arg) == seq![arg],
{
    let s = program + seq![' '] + arg;
    let a = program.len() as int;
    assert forall|k: int| 0 <= k < a implies !is_blank(#[trigger] s[k]) by {
        assert(s[k] == program[k]);
    }
    assert forall|k: int| a + 1 <= k < s.len() implies !is_blank(#[trigger] s[k]) by {
        assert(s[k] == arg[k - a - 1]);
    }
    lemma_words_skip(s, 0, a, 0, seq![]);
    assert(is_blank(s[a]));
    let done = seq![s.subrange(0, a)];
    assert(seq![].push(s.subrange(0, a)) =~= done);
    assert(words_from(s, a, 0, seq![]) == words_from(s, a + 1, a + 1, done));
    lemma_words_skip(s, a + 1, s.len() as int, a + 1, done);
    assert(s.subrange(0, a) =~= program);
    assert(s.subrange(a + 1, s.len() as int) =~= arg);
    let all = done.push(s.subrange(a + 1, s.len() as int));
    assert(words(s) == all);
    assert(all.drop_first() =~= seq![arg]);
}

/// The user an application runs as: the one the location names; else the owner
/// of the file that its command names, when there is one; else `nobody`.
pub open spec fn run_user(user: Seq<char>, file_owner: Option<Seq<char>>) -> Seq<char> {
    if user.len() > 0 {
        user
    } else {
        match file_owner {
            Some(o) => o,
            None => "nobody"@,
        }
    }
}

/// Law: the configured user is the one an application runs as, whatever file
/// owner is found; the owner of the file is taken only when no user is
/// configured, and `nobody` when neither is there.
pub proof fn law_configured_user_wins(user: Seq<char>, file_owner: Option<Seq<char>>)
    ensures
        user.len() > 0 ==> run_user(user, file_owner) == user,
        user.len() == 0 && file_owner is Some ==> run_user(user, file_owner) == file_owner->0,
        user.len() == 0 && file_owner is None ==> run_user(user, file_owner) == "nobody"@,
{
}

/// Where an application's output goes.
pub enum LogTarget {
    /// The error log of NGINX, which the application's output is left to.
    ErrorLog,
    /// The file at this path.
    File(String),
}

/// What is needed to start an application, as plain text: the script for
/// `bash -c`, the directory it runs in, the user it runs as, where its output
/// goes, and the `HOME` and `PORT` of its environment.
pub struct SpawnPlan {
    pub script: String,
    pub dir: String,
    pub user: String,
    pub log: LogTarget,
    pub home: String,
    pub port: String,
}

/// The start of the application of location `co` on `port`. `location_root` is
/// the location's `root`, whose parent is the default directory; `file_owner`
/// is the owner of the file that the command names, if any.
pub fn spawn_plan(co: &ModuleConfig, location_root: &str, file_owner: Option<&str>, port: u16) -> (p:
    SpawnPlan)
    ensures
        p.script@ == shell_script(co.command@),
        p.script@ == "source /etc/profile ; source ~/.profile ; "@ + co.command@,
        co.root@.len() > 0 ==> p.dir@ == co.root@,
        p.dir@ == if co.root@.len() > 0 {
            co.root@
        } else {
            parent_dir(location_root@)
        },
        p.user@ == run_user(
            co.user@,
            match file_owner {
                Some(o) => Some(o@),
                None => None,
            },
        ),
        co.user@.len() > 0 ==> p.user@ == co.user@,
        co.user@.len() == 0 && file_owner is Some ==> p.user@ == file_owner->0@,
        co.user@.len() == 0 && file_owner is None ==> p.user@ == "nobody"@,
        p.log matches LogTarget::File(path) ==> path@ == co.log@,
        p.log is ErrorLog <==> co.log@.len() == 0,
        p.home@ == "/home/"@ + p.user@,
        p.port@ == decimal_text(port as nat),
{
    let mut script = String::from_str("source /etc/profile ; source ~/.profile ; ");
    script.append(co.command.as_str());
    let dir = if co.root.as_str().is_empty() {
        parent_dir_of(location_root)
    } else {
        co.root.clone()
    };
    let user = if !co.user.as_str().is_empty() {
        co.user.clone()
    } else {
        match file_owner {
            Some(o) => String::from_str(o),
            None => String::from_str("nobody"),
        }
    };
    let log = if co.log.as_str().is_empty() {
        LogTarget::ErrorLog
    } else {
        LogTarget::File(co.log.clone())
    };
    let mut home = String::from_str("/home/");
    home.append(user.as_str());
    SpawnPlan { script, dir, user, log, home, port: decimal_string(port as u64) }
}

/// The local address where a started application is expected to listen.
pub fn local_address(port: u16) -> (a: String)
    ensures
        a@ == "127.0.0.1:"@ + decimal_text(port as nat),
{
    let mut a = String::from_str("127.0.0.1:");
    let p = decimal_string(port as u64);
    a.append(p.as_str());
    a
}

/// What to do after one attempt to connect to a starting application.
#[derive(Clone, Copy, Debug, PartialEq, Eq, Structural)]
pub enum ConnectStep {
    /// The application accepts connections.
    Connected,
    /// The time allowed has passed: stop waiting.
    GiveUp,
    /// Pause, then try again.
    Retry,
}

/// Decides the next step of waiting for an application, from whether the last
/// attempt connected and the nanoseconds since the wait began.
pub fn connect_step(connected: bool, elapsed_nanos: u128) -> (s: ConnectStep)
    ensures
        connected ==> s is Connected,
        !connected && elapsed_nanos > CONNECT_WAIT_SECS * 1_000_000_000 ==> s is GiveUp,
        !connected && elapsed_nanos <= CONNECT_WAIT_SECS * 1_000_000_000 ==> s is Retry,
{
    if connected {
        ConnectStep::Connected
    } else if elapsed_nanos > (CONNECT_WAIT_SECS as u128) * 1_000_000_000 {
        ConnectStep::GiveUp
    } else {
        ConnectStep::Retry
    }
}

/// The bytes of an ASCII text.
pub open spec fn ascii_bytes(s: Seq<char>) -> Seq<u8> {
    s.map_values(|c: char| c as u8)
}

/// The decimal text of `n` is a non-empty string of digits worth `n`.
proof fn lemma_decimal_text_digits(n: nat)
    ensures
        ascii_bytes(decimal_text(n)).len() > 0,
        all_digits(ascii_bytes(decimal_text(n))),
        digits_value(ascii_bytes(decimal_text(n))) == n,
    decreases n,
{
    let b = ascii_bytes(decimal_text(n));
    if n < 10 {
        assert(b =~= seq![(48 + n) as u8]);
        assert(b.drop_last() =~= Seq::<u8>::empty());
        assert(b.last() == 48 + n);
        assert(digits_value(b) == digits_value(b.drop_last()) * 10 + (b.last() - 48) as nat);
    } else {
        lemma_decimal_text_digits(n / 10);
        let prev = ascii_bytes(decimal_text(n / 10));
        assert(b =~= prev.push((48 + n % 10) as u8));
        assert(b.drop_last() =~= prev);
        assert(b.last() == 48 + n % 10);
        assert(digits_value(b) == digits_value(prev) * 10 + (b.last() - 48) as nat);
        assert(n == (n / 10) * 10 + n % 10);
        assert forall|i: int| 0 <= i < b.len() implies is_digit(#[trigger] b[i]) by {
            if i < prev.len() {
                assert(b[i] == prev[i]);
            }
        }
    }
}

/// Law: a number written out by `decimal_string` reads back, through
/// `parse_unsigned_prefix`, as the same number.
pub proof fn law_decimal_text_reads_back(n: nat, max: nat)
    requires
        n <= max,
    ensures
        parse_unsigned(ascii_bytes(decimal_text(n)), max) == Some(n),
{
    lemma_decimal_text_digits(n);
    let b = ascii_bytes(decimal_text(n));
    assert(is_digit(b[0]));
    assert(unsigned_digits(b) == b);
}

/// Law: a number of seconds written out in decimal and followed by a unit
/// letter reads, through `parse_duration_to_seconds`, as that many units.
pub proof fn law_duration_text_reads_back(n: nat, unit: u8)
    requires
        n <= u64::MAX,
        unit_seconds(unit) is Some,
    ensures
        duration_outcome(ascii_bytes(decimal_text(n)).push(unit)) == Ok::<nat, Seq<char>>(
            n * unit_seconds(unit)->0,
        ),
{
    lemma_decimal_text_digits(n);
    law_decimal_text_reads_back(n, u64::MAX as nat);
    let b = ascii_bytes(decimal_text(n)).push(unit);
    assert(b.drop_last() =~= ascii_bytes(decimal_text(n)));
}

/// Whether the sweeping thread must be started: when none was started yet, or
/// when the one started (`Some(finished)`) has finished.
pub fn should_spawn(started: Option<bool>) -> (r: bool)
    ensures
        r == match started {
            Some(finished) => finished,
            None => true,
        },
{
    match started {
        Some(finished) => finished,
        None => true,
    }
}

} // verus!
