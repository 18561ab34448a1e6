//! System-facing operations: the command lines handed to the system tools,
//! what their outcome is reported as, file-name sanitising, and the reading of
//! the update client's status report.

use vstd::prelude::*;
use crate::text::{
    chars_of, contains_exec, contains_seq, is_alphanumeric, lemma_replace_same_len,
    replace_exec, replace_seq, string_of, string_views, char_is_alphanumeric,
};

verus! {

/// `serde_json::Value`, carried through opaquely.
#[verifier::external_type_specification]
#[verifier::external_body]
pub struct ExJsonValue(serde_json::Value);

/// `s` with each character that is not alphanumeric replaced by `rep`.
pub open spec fn mask_non_alphanumeric(s: Seq<char>, rep: char) -> Seq<char> {
    Seq::new(s.len(), |i: int| if is_alphanumeric(s[i]) { s[i] } else { rep })
}

/// `text` with each character whose flag in `keep` is false replaced by `rep`.
pub fn mask_chars(text: &str, keep: &Vec<bool>, rep: char) -> (r: String)
    requires
        keep@.len() == text@.len(),
    ensures
        r@ == Seq::new(text@.len(), |i: int| if keep@[i] { text@[i] } else { rep }),
{
    let chars = chars_of(text);
    let mut out: Vec<char> = Vec::new();
    let mut i: usize = 0;
    while i < chars.len()
        invariant
            chars@ == text@,
            keep@.len() == text@.len(),
            i <= chars.len(),
            out@ =~= Seq::new(i as nat, |k: int| if keep@[k] { text@[k] } else { rep }),
        decreases chars.len() - i,
    {
        if keep[i] {
            out.push(chars[i]);
        } else {
            out.push(rep);
        }
        i = i + 1;
    }
    string_of(out.as_slice())
}

/// Which characters of `text` are alphanumeric.
fn alphanumeric_flags(text: &str) -> (flags: Vec<bool>)
    ensures
        flags@.len() == text@.len(),
        forall|i: int| 0 <= i < text@.len() ==> flags@[i] == is_alphanumeric(#[trigger] text@[i]),
{
    let chars = chars_of(text);
    let mut flags: Vec<bool> = Vec::new();
    let mut i: usize = 0;
    while i < chars.len()
        invariant
            chars@ == text@,
            i <= chars.len(),
            flags@.len() == i,
            forall|k: int| 0 <= k < i ==> flags@[k] == is_alphanumeric(#[trigger] text@[k]),
        decreases chars.len() - i,
    {
        flags.push(char_is_alphanumeric(chars[i]));
        i = i + 1;
    }
    flags
}

/// `text` with every character that is not alphanumeric replaced by `-`.
pub fn replace_none_alphanumeric(string_to_clean: String) -> (r: String)
    ensures
        r@ == mask_non_alphanumeric(string_to_clean@, '-'),
        r@.len() == string_to_clean@.len(),
        forall|i: int|
            0 <= i < string_to_clean@.len() ==> {
                &&& is_alphanumeric(string_to_clean@[i]) ==> r@[i] == string_to_clean@[i]
                &&& !is_alphanumeric(string_to_clean@[i]) ==> r@[i] == '-'
            },
{
    proof {
        law_replace_none_alphanumeric_positions(string_to_clean@);
    }
    let flags = alphanumeric_flags(string_to_clean.as_str());
    let r = mask_chars(string_to_clean.as_str(), &flags, '-');
    assert(r@ =~= mask_non_alphanumeric(string_to_clean@, '-'));
    r
}

/// The file name made of `s`: characters that are not alphanumeric become `_`,
/// then each `_mp3` becomes `.mp3`.
pub open spec fn sanitized_file_name(s: Seq<char>) -> Seq<char> {
    replace_seq(mask_non_alphanumeric(s, '_'), "_mp3"@, ".mp3"@)
}

/// `text` with every character that is not alphanumeric replaced by `_`, and
/// then every `_mp3` turned back into `.mp3`.
pub fn replace_string_unterscore(string_to_clean: String) -> (r: String)
    ensures
        r@ == sanitized_file_name(string_to_clean@),
        r@.len() == string_to_clean@.len(),
        forall|i: int|
            0 <= i < string_to_clean@.len() ==> {
                &&& is_alphanumeric(string_to_clean@[i]) ==> r@[i] == string_to_clean@[i]
                &&& !is_alphanumeric(string_to_clean@[i]) ==> (r@[i] == '_' || (r@[i] == '.'
                    && i + 4 <= r@.len() && r@.subrange(i, i + 4) == ".mp3"@))
            },
{
    proof {
        law_sanitized_file_name_positions(string_to_clean@);
    }
    let flags = alphanumeric_flags(string_to_clean.as_str());
    let masked = mask_chars(string_to_clean.as_str(), &flags, '_');
    assert(masked@ =~= mask_non_alphanumeric(string_to_clean@, '_'));
    let text = chars_of(masked.as_str());
    let pat = chars_of("_mp3");
    let rep = chars_of(".mp3");
    proof {
        reveal_strlit("_mp3");
    }
    let out = replace_exec(&text, &pat, &rep);
    string_of(out.as_slice())
}

/// Law: sanitising a name with `-` is idempotent.
pub proof fn law_replace_none_alphanumeric_idempotent(s: Seq<char>)
    ensures
        mask_non_alphanumeric(mask_non_alphanumeric(s, '-'), '-') == mask_non_alphanumeric(s, '-'),
{
    let once = mask_non_alphanumeric(s, '-');
    assert(!is_alphanumeric('-'));
    assert(mask_non_alphanumeric(once, '-') =~= once);
}

/// Law: both sanitisers keep the number of characters.
pub proof fn law_sanitizers_keep_length(s: Seq<char>)
    ensures
        mask_non_alphanumeric(s, '-').len() == s.len(),
        sanitized_file_name(s).len() == s.len(),
{
    reveal_strlit("_mp3");
    reveal_strlit(".mp3");
    lemma_replace_same_len(mask_non_alphanumeric(s, '_'), "_mp3"@, ".mp3"@);
}

/// A character the first sanitising step leaves alone or writes: alphanumeric or `_`.
pub open spec fn is_name_char(c: char) -> bool {
    is_alphanumeric(c) || c == '_'
}

/// Lemma: masking distributes over concatenation.
proof fn lemma_mask_concat(a: Seq<char>, b: Seq<char>, rep: char)
    ensures
        mask_non_alphanumeric(a + b, rep) == mask_non_alphanumeric(a, rep)
            + mask_non_alphanumeric(b, rep),
{
    assert(mask_non_alphanumeric(a + b, rep) =~= mask_non_alphanumeric(a, rep)
        + mask_non_alphanumeric(b, rep));
}

/// Lemma: on a text of name characters, masking with `_` after turning each
/// `_mp3` into `.mp3` gives the text back.
proof fn lemma_mask_undoes_mp3(t: Seq<char>)
    requires
        forall|i: int| 0 <= i < t.len() ==> is_name_char(#[trigger] t[i]),
    ensures
        mask_non_alphanumeric(replace_seq(t, "_mp3"@, ".mp3"@), '_') == t,
    decreases t.len(),
{
    reveal_strlit("_mp3");
    reveal_strlit(".mp3");
    let pat = "_mp3"@;
    let rep = ".mp3"@;
    if t.len() < pat.len() {
        assert(mask_non_alphanumeric(t, '_') =~= t);
    } else if t.subrange(0, pat.len() as int) == pat {
        let rest = t.subrange(pat.len() as int, t.len() as int);
        assert forall|i: int| 0 <= i < rest.len() implies is_name_char(#[trigger] rest[i]) by {
            assert(rest[i] == t[i + 4]);
        }
        lemma_mask_undoes_mp3(rest);
        lemma_mask_concat(rep, replace_seq(rest, pat, rep), '_');
        assert(mask_non_alphanumeric(rep, '_') =~= pat);
        assert(t =~= pat + rest);
    } else {
        let rest = t.subrange(1, t.len() as int);
        assert forall|i: int| 0 <= i < rest.len() implies is_name_char(#[trigger] rest[i]) by {
            assert(rest[i] == t[i + 1]);
        }
        lemma_mask_undoes_mp3(rest);
        lemma_mask_concat(seq![t[0]], replace_seq(rest, pat, rep), '_');
        assert(mask_non_alphanumeric(seq![t[0]], '_') =~= seq![t[0]]);
        assert(t =~= seq![t[0]] + rest);
    }
}

/// Law: sanitising a file name that was already sanitised changes nothing.
pub proof fn law_replace_string_unterscore_idempotent(s: Seq<char>)
    ensures
        sanitized_file_name(sanitized_file_name(s)) == sanitized_file_name(s),
{
    let t = mask_non_alphanumeric(s, '_');
    assert forall|i: int| 0 <= i < t.len() implies is_name_char(#[trigger] t[i]) by {}
    lemma_mask_undoes_mp3(t);
}

/// Law: sanitising with `-` keeps each alphanumeric character in place and
/// turns every other character into `-`; nothing else appears.
pub proof fn law_replace_none_alphanumeric_positions(s: Seq<char>)
    ensures
        mask_non_alphanumeric(s, '-').len() == s.len(),
        forall|i: int|
            0 <= i < s.len() ==> {
                &&& is_alphanumeric(s[i]) ==> mask_non_alphanumeric(s, '-')[i] == s[i]
                &&& !is_alphanumeric(s[i]) ==> mask_non_alphanumeric(s, '-')[i] == '-'
            },
        forall|i: int|
            0 <= i < s.len() ==> is_alphanumeric(#[trigger] mask_non_alphanumeric(s, '-')[i])
                || mask_non_alphanumeric(s, '-')[i] == '-',
{
}

/// Lemma: turning each `_mp3` into `.mp3` keeps the length, and changes a
/// character only where an `_` becomes the `.` of a `.mp3`.
proof fn lemma_mp3_positions(t: Seq<char>)
    ensures
        replace_seq(t, "_mp3"@, ".mp3"@).len() == t.len(),
        forall|i: int|
            0 <= i < t.len() ==> {
                ||| #[trigger] replace_seq(t, "_mp3"@, ".mp3"@)[i] == t[i]
                ||| {
                    &&& t[i] == '_'
                    &&& replace_seq(t, "_mp3"@, ".mp3"@)[i] == '.'
                    &&& i + 4 <= t.len()
                    &&& replace_seq(t, "_mp3"@, ".mp3"@).subrange(i, i + 4) == ".mp3"@
                }
            },
    decreases t.len(),
{
    reveal_strlit("_mp3");
    reveal_strlit(".mp3");
    let pat = "_mp3"@;
    let rep = ".mp3"@;
    let r = replace_seq(t, pat, rep);
    if t.len() < pat.len() {
    } else if t.subrange(0, pat.len() as int) == pat {
        let rest = t.subrange(4, t.len() as int);
        lemma_mp3_positions(rest);
        let rr = replace_seq(rest, pat, rep);
        assert(r == rep + rr);
        assert forall|i: int| 0 <= i < t.len() implies {
            ||| #[trigger] r[i] == t[i]
            ||| {
                &&& t[i] == '_'
                &&& r[i] == '.'
                &&& i + 4 <= t.len()
                &&& r.subrange(i, i + 4) == rep
            }
        } by {
            if i == 0 {
                assert(t[0] == t.subrange(0, 4)[0]);
                assert(r.subrange(0, 4) =~= rep);
            } else if i < 4 {
                assert(t[i] == t.subrange(0, 4)[i]);
            } else {
                assert(r[i] == rr[i - 4]);
                assert(t[i] == rest[i - 4]);
                if rr[i - 4] != rest[i - 4] {
                    assert(r.subrange(i, i + 4) =~= rr.subrange(i - 4, i));
                }
            }
        }
    } else {
        let rest = t.subrange(1, t.len() as int);
        lemma_mp3_positions(rest);
        let rr = replace_seq(rest, pat, rep);
        assert(r == seq![t[0]] + rr);
        assert forall|i: int| 0 <= i < t.len() implies {
            ||| #[trigger] r[i] == t[i]
            ||| {
                &&& t[i] == '_'
                &&& r[i] == '.'
                &&& i + 4 <= t.len()
                &&& r.subrange(i, i + 4) == rep
            }
        } by {
            if i > 0 {
                assert(r[i] == rr[i - 1]);
                assert(t[i] == rest[i - 1]);
                if rr[i - 1] != rest[i - 1] {
                    assert(r.subrange(i, i + 4) =~= rr.subrange(i - 1, i + 3));
                }
            }
        }
    }
}

/// Law: sanitising a file name keeps its length and each alphanumeric
/// character in place; every other character becomes `_`, or the `.` of a
/// `.mp3` that follows it.
pub proof fn law_sanitized_file_name_positions(s: Seq<char>)
    ensures
        sanitized_file_name(s).len() == s.len(),
        forall|i: int|
            0 <= i < s.len() ==> {
                &&& is_alphanumeric(s[i]) ==> sanitized_file_name(s)[i] == s[i]
                &&& !is_alphanumeric(s[i]) ==> (sanitized_file_name(s)[i] == '_' || (
                sanitized_file_name(s)[i] == '.' && i + 4 <= sanitized_file_name(s).len()
                    && sanitized_file_name(s).subrange(i, i + 4) == ".mp3"@))
            },
{
    let t = mask_non_alphanumeric(s, '_');
    lemma_mp3_positions(t);
    let r = sanitized_file_name(s);
    assert forall|i: int| 0 <= i < s.len() implies {
        &&& is_alphanumeric(s[i]) ==> r[i] == s[i]
        &&& !is_alphanumeric(s[i]) ==> (r[i] == '_' || (r[i] == '.' && i + 4 <= r.len()
            && r.subrange(i, i + 4) == ".mp3"@))
    } by {
        assert(t[i] == (if is_alphanumeric(s[i]) { s[i] } else { '_' }));
        assert(r[i] == t[i] || (t[i] == '_' && r[i] == '.' && i + 4 <= t.len() && r.subrange(
            i,
            i + 4,
        ) == ".mp3"@));
    }
}

/// The views of a command line's arguments.
pub open spec fn argv(cmd: Vec<String>) -> Seq<Seq<char>> {
    string_views(cmd@)
}

/// What a call of a system tool that returns its output is reported as: always
/// an error, holding the tool's output, or the reason it could not be run.
pub fn report_command_output(outcome: Result<String, String>) -> (r: Result<(), String>)
    ensures
        r == Err::<(), String>(match outcome {
            Ok(out) => out,
            Err(e) => e,
        }),
{
    match outcome {
        Ok(out) => Err(out),
        Err(e) => Err(e),
    }
}

/// A command line of string literals.
fn command(words: &[&str]) -> (cmd: Vec<String>)
    ensures
        argv(cmd) == words@.map_values(|w: &str| w@),
{
    let mut cmd: Vec<String> = Vec::new();
    let mut i: usize = 0;
    while i < words.len()
        invariant
            i <= words.len(),
            string_views(cmd@) =~= words@.take(i as int).map_values(|w: &str| w@),
        decreases words.len() - i,
    {
        let ghost before = cmd@;
        let w = String::from_str(words[i]);
        cmd.push(w);
        assert(words@.take(i + 1) =~= words@.take(i as int).push(words@[i as int]));
        assert(string_views(cmd@) =~= string_views(before).push(w@));
        assert(words@.take(i + 1).map_values(|w: &str| w@) =~= words@.take(i as int).map_values(
            |w: &str| w@,
        ).push(words@[i as int]@));
        i = i + 1;
    }
    assert(words@.take(words.len() as int) =~= words@);
    cmd
}

/// The command that stops the WLAN supplicant.
pub fn killall_wpa_supplicant() -> (cmd: Vec<String>)
    ensures
        argv(cmd) == seq!["killall"@, "wpa_supplicant"@],
{
    let cmd = command(&["killall", "wpa_supplicant"]);
    assert(argv(cmd) =~= seq!["killall"@, "wpa_supplicant"@]);
    cmd
}

/// The command that stops the audio player.
pub fn killall_squeezelite() -> (cmd: Vec<String>)
    ensures
        argv(cmd) == seq!["killall"@, "/usr/bin/squeezelite"@],
{
    let cmd = command(&["killall", "/usr/bin/squeezelite"]);
    assert(argv(cmd) =~= seq!["killall"@, "/usr/bin/squeezelite"@]);
    cmd
}

/// The command that stops the DHCP client.
pub fn killall_dhcp_client() -> (cmd: Vec<String>)
    ensures
        argv(cmd) == seq!["killall"@, "udhcpc"@],
{
    let cmd = command(&["killall", "udhcpc"]);
    assert(argv(cmd) =~= seq!["killall"@, "udhcpc"@]);
    cmd
}

/// The command that starts the audio player under `squeezelite_name`, with
/// Bluetooth output when asked; otherwise the last two arguments are empty.
pub fn start_squeezelite(blue_output: bool, squeezelite_name: &str) -> (cmd: Vec<String>)
    ensures
        argv(cmd) == seq![
            "/usr/bin/squeezelite"@,
            "-n"@,
            squeezelite_name@,
            "-z"@,
            if blue_output { "-o"@ } else { ""@ },
            if blue_output { "bluealsa"@ } else { ""@ },
        ],
{
    let output = if blue_output { "-o" } else { "" };
    let device = if blue_output { "bluealsa" } else { "" };
    let cmd = command(&["/usr/bin/squeezelite", "-n", squeezelite_name, "-z", output, device]);
    assert(argv(cmd) =~= seq![
        "/usr/bin/squeezelite"@,
        "-n"@,
        squeezelite_name@,
        "-z"@,
        if blue_output { "-o"@ } else { ""@ },
        if blue_output { "bluealsa"@ } else { ""@ },
    ]);
    cmd
}

/// The command that installs the update bundle `rauc_bundle`.
pub fn do_rauc_update(rauc_bundle: &str) -> (cmd: Vec<String>)
    ensures
        argv(cmd) == seq!["rauc"@, "install"@, rauc_bundle@],
{
    let cmd = command(&["rauc", "install", rauc_bundle]);
    assert(argv(cmd) =~= seq!["rauc"@, "install"@, rauc_bundle@]);
    cmd
}

/// The command that reboots the device.
pub fn reboot_command() -> (cmd: Vec<String>)
    ensures
        argv(cmd) == seq!["reboot"@],
{
    let cmd = command(&["reboot"]);
    assert(argv(cmd) =~= seq!["reboot"@]);
    cmd
}

/// The command that sends one ping to `ip`, waiting at most a second.
pub fn ping_command(ip: &str) -> (cmd: Vec<String>)
    ensures
        argv(cmd) == seq!["/usr/bin/ping"@, "-c"@, "1"@, "-W"@, "1"@, ip@],
{
    let cmd = command(&["/usr/bin/ping", "-c", "1", "-W", "1", ip]);
    assert(argv(cmd) =~= seq!["/usr/bin/ping"@, "-c"@, "1"@, "-W"@, "1"@, ip@]);
    cmd
}

/// The verdict on a ping: reachable when the output reports `1 received`,
/// the error `false` when it does not, the run's own error when it failed.
pub fn ping_verdict(outcome: Result<String, String>) -> (r: Result<bool, String>)
    ensures
        match outcome {
            Ok(out) => if contains_seq(out@, "1 received"@) {
                r == Ok::<bool, String>(true)
            } else {
                (r matches Err(e) && e@ == "false"@)
            },
            Err(e) => r == Err::<bool, String>(e),
        },
{
    match outcome {
        Ok(out) => {
            let text = chars_of(out.as_str());
            let pat = chars_of("1 received");
            if contains_exec(&text, &pat) {
                Ok(true)
            } else {
                Err(String::from_str("false"))
            }
        },
        Err(e) => Err(e),
    }
}

/// The command that asks the update client for its status as JSON.
pub fn rauc_status_command() -> (cmd: Vec<String>)
    ensures
        argv(cmd) == seq!["/usr/bin/rauc"@, "status"@, "--output-format=json"@],
{
    let cmd = command(&["/usr/bin/rauc", "status", "--output-format=json"]);
    assert(argv(cmd) =~= seq!["/usr/bin/rauc"@, "status"@, "--output-format=json"@]);
    cmd
}

/// What `serde_json` makes of `text` as one JSON document: the value it
/// parses to, or the message with which it is rejected.
pub uninterp spec fn json_parse(text: Seq<char>) -> Result<serde_json::Value, Seq<char>>;

/// The view of a parse result: the value, or the error's text.
pub open spec fn json_result_view(res: Result<serde_json::Value, String>) -> Result<
    serde_json::Value,
    Seq<char>,
> {
    match res {
        Ok(v) => Ok(v),
        Err(m) => Err(m@),
    }
}

/// `serde_json::from_str::<Value>`: parses `text` as one JSON document. The
/// contract names the result: the parsed value, or the rejection's message
/// (the error's `Display`); it does not restate JSON parsing.
#[verifier::external_body]
fn parse_json(text: &str) -> (res: Result<serde_json::Value, String>)
    ensures
        json_result_view(res) == json_parse(text@),
{
    match serde_json::from_str::<serde_json::Value>(text) {
        Ok(v) => Ok(v),
        Err(e) => Err(e.to_string()),
    }
}

/// The update client's status: the JSON document that its report
/// `status_output` parses to, or the parser's message when it does not parse.
pub fn get_rauc_booted_slot(status_output: &str) -> (res: Result<serde_json::Value, String>)
    ensures
        json_result_view(res) == json_parse(status_output@),
{
    parse_json(status_output)
}

/// The answer to whether `file` exists, given whether it is a regular file.
pub fn file_exists_res(file: &str, is_file: bool) -> (r: Result<bool, String>)
    ensures
        is_file ==> r == Ok::<bool, String>(true),
        !is_file ==> (r matches Err(m) && m@ == "File "@ + file@ + " does not exist!"@),
{
    if is_file {
        Ok(true)
    } else {
        let mut m = String::from_str("File ");
        m.append(file);
        m.append(" does not exist!");
        Err(m)
    }
}

} // verus!
