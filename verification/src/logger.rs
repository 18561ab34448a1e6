//! Log records tagged with the component they come from, and the decoration
//! that the service's log formatter gives them.
//!
//! A component logs `"%<name>%<message>"`; the formatter recognises the tags
//! `%controller%`, `%web%` and `%wifi%`, strips them from the text and picks the
//! source name and its colour from them.

use vstd::prelude::*;
use crate::text::{
    chars_of, contains_exec, contains_seq, lemma_absent_first_char, lemma_replace_absent,
    lemma_replace_leading, matches_at, replace_exec, replace_seq, string_of,
};

verus! {

/// Severity of a log record.
#[derive(Clone, Copy, Debug, PartialEq, Eq, Structural)]
pub enum LogLevel {
    Error,
    Warn,
    Info,
    Debug,
    Trace,
}

/// Terminal colours used by the log formatter.
#[derive(Clone, Copy, Debug, PartialEq, Eq, Structural)]
pub enum LogColor {
    Yellow,
    Cyan,
    Red,
    White,
    Green,
}

/// A record ready to be handed to the logging backend.
#[derive(Debug, PartialEq, Eq)]
pub struct LogRecord {
    pub level: LogLevel,
    pub message: String,
}

/// How the formatter prints one record: the source name and its colour (none
/// for the default style), the colour of the level, and the text with the tags
/// removed.
#[derive(Debug, PartialEq, Eq)]
pub struct Decoration {
    pub source: String,
    pub source_color: Option<LogColor>,
    pub level_color: LogColor,
    pub message: String,
}

/// The component name for a numeric source id.
pub open spec fn source_name(from: u16) -> Seq<char> {
    if from == 0 {
        "main"@
    } else if from == 3 {
        "web"@
    } else if from == 6 {
        "wifi"@
    } else if from == 8 {
        "sysinfo"@
    } else {
        "unknown"@
    }
}

/// `"%" + name + "%" + msg`.
pub open spec fn tagged_message(name: Seq<char>, msg: Seq<char>) -> Seq<char> {
    seq!['%'] + name + seq!['%'] + msg
}

/// The component name for a numeric source id: 0 main, 3 web, 6 wifi,
/// 8 sysinfo, anything else unknown.
pub fn find_string(from: u16) -> (name: String)
    ensures
        name@ == source_name(from),
{
    match from {
        0 => String::from_str("main"),
        3 => String::from_str("web"),
        6 => String::from_str("wifi"),
        8 => String::from_str("sysinfo"),
        _ => String::from_str("unknown"),
    }
}

/// `"%<component>%<msg>"` for the component `from_id`.
fn tag_message(msg: &str, from_id: u16) -> (r: String)
    ensures
        r@ == tagged_message(source_name(from_id), msg@),
{
    let from = find_string(from_id);
    let mut r = String::from_str("%");
    r.append(from.as_str());
    r.append("%");
    r.append(msg);
    proof {
        reveal_strlit("%");
    }
    assert(r@ =~= tagged_message(source_name(from_id), msg@));
    r
}

/// The info-level record that component `from_id` logs for `msg`.
pub fn ilog(msg: &str, from_id: u16) -> (r: LogRecord)
    ensures
        r.level == LogLevel::Info,
        r.message@ == tagged_message(source_name(from_id), msg@),
{
    LogRecord { level: LogLevel::Info, message: tag_message(msg, from_id) }
}

/// The debug-level record that component `from_id` logs for `msg`.
pub fn dlog(msg: &str, from_id: u16) -> (r: LogRecord)
    ensures
        r.level == LogLevel::Debug,
        r.message@ == tagged_message(source_name(from_id), msg@),
{
    LogRecord { level: LogLevel::Debug, message: tag_message(msg, from_id) }
}

/// The warn-level record that component `from_id` logs for `msg`.
pub fn wlog(msg: &str, from_id: u16) -> (r: LogRecord)
    ensures
        r.level == LogLevel::Warn,
        r.message@ == tagged_message(source_name(from_id), msg@),
{
    LogRecord { level: LogLevel::Warn, message: tag_message(msg, from_id) }
}

/// The error-level record that component `from_id` logs for `msg`.
pub fn elog(msg: &str, from_id: u16) -> (r: LogRecord)
    ensures
        r.level == LogLevel::Error,
        r.message@ == tagged_message(source_name(from_id), msg@),
{
    LogRecord { level: LogLevel::Error, message: tag_message(msg, from_id) }
}

/// The colour in which a level is printed.
pub open spec fn spec_level_color(level: LogLevel) -> LogColor {
    match level {
        LogLevel::Info => LogColor::Yellow,
        LogLevel::Debug => LogColor::Cyan,
        LogLevel::Error => LogColor::Red,
        _ => LogColor::White,
    }
}

/// `s` without `tag` when it holds it, `s` itself otherwise.
pub open spec fn strip_tag(s: Seq<char>, tag: Seq<char>) -> Seq<char> {
    if contains_seq(s, tag) {
        replace_seq(s, tag, Seq::empty())
    } else {
        s
    }
}

/// The text once `%controller%` is stripped.
pub open spec fn after_controller(m: Seq<char>) -> Seq<char> {
    strip_tag(m, "%controller%"@)
}

/// The text once `%controller%` and `%web%` are stripped.
pub open spec fn after_web(m: Seq<char>) -> Seq<char> {
    strip_tag(after_controller(m), "%web%"@)
}

/// The printed text: all three tags stripped, in the order controller, web, wifi.
pub open spec fn decorated_text(m: Seq<char>) -> Seq<char> {
    strip_tag(after_web(m), "%wifi%"@)
}

/// The printed source: the last of web and wifi whose tag was found, main otherwise.
pub open spec fn decorated_source(m: Seq<char>) -> Seq<char> {
    if contains_seq(after_web(m), "%wifi%"@) {
        "wifi"@
    } else if contains_seq(after_controller(m), "%web%"@) {
        "web"@
    } else {
        "main"@
    }
}

/// The colour of the printed source: cyan for web or wifi, green for a
/// controller tag alone, the default style when no tag was found.
pub open spec fn decorated_color(m: Seq<char>) -> Option<LogColor> {
    if contains_seq(after_web(m), "%wifi%"@) || contains_seq(after_controller(m), "%web%"@) {
        Some(LogColor::Cyan)
    } else if contains_seq(m, "%controller%"@) {
        Some(LogColor::Green)
    } else {
        None
    }
}

/// The colour in which a level is printed: info yellow, debug cyan, error red,
/// any other white.
pub fn level_color(level: LogLevel) -> (c: LogColor)
    ensures
        c == spec_level_color(level),
{
    match level {
        LogLevel::Info => LogColor::Yellow,
        LogLevel::Debug => LogColor::Cyan,
        LogLevel::Error => LogColor::Red,
        _ => LogColor::White,
    }
}

/// Strips `tag` from `text` when present; says whether it was.
fn take_tag(text: &mut Vec<char>, tag: &str) -> (found: bool)
    requires
        tag@.len() > 0,
    ensures
        found == contains_seq(old(text)@, tag@),
        final(text)@ == strip_tag(old(text)@, tag@),
{
    let pat = chars_of(tag);
    if contains_exec(text, &pat) {
        let empty: Vec<char> = Vec::new();
        let replaced = replace_exec(text, &pat, &empty);
        assert(empty@ =~= Seq::<char>::empty());
        *text = replaced;
        true
    } else {
        false
    }
}

/// How the log formatter prints a record of `level` whose text is `message`.
pub fn decorate_record(level: LogLevel, message: &str) -> (d: Decoration)
    ensures
        d.source@ == decorated_source(message@),
        d.source_color == decorated_color(message@),
        d.level_color == spec_level_color(level),
        d.message@ == decorated_text(message@),
{
    proof {
        reveal_strlit("%controller%");
        reveal_strlit("%web%");
        reveal_strlit("%wifi%");
    }
    let mut text = chars_of(message);
    let mut source = String::from_str("main");
    let mut color: Option<LogColor> = None;
    if take_tag(&mut text, "%controller%") {
        color = Some(LogColor::Green);
    }
    if take_tag(&mut text, "%web%") {
        color = Some(LogColor::Cyan);
        source = String::from_str("web");
    }
    if take_tag(&mut text, "%wifi%") {
        color = Some(LogColor::Cyan);
        source = String::from_str("wifi");
    }
    Decoration {
        source,
        source_color: color,
        level_color: level_color(level),
        message: string_of(text.as_slice()),
    }
}

/// Lemma: in `"%" + name + "%" + msg`, with no `%` in `name` or `msg`, a
/// pattern that begins and ends with `%` occurs exactly when it is `"%" + name + "%"`.
proof fn lemma_tag_search(name: Seq<char>, msg: Seq<char>, pat: Seq<char>)
    requires
        !name.contains('%'),
        !msg.contains('%'),
        pat.len() >= 2,
        pat[0] == '%',
        pat[pat.len() - 1] == '%',
    ensures
        contains_seq(tagged_message(name, msg), pat) <==> pat == seq!['%'] + name + seq!['%'],
{
    let s = tagged_message(name, msg);
    let tag = seq!['%'] + name + seq!['%'];
    let n = name.len() as int;
    assert(s =~= tag + msg);
    assert(s.subrange(0, n + 2) =~= tag);
    if pat == tag {
        assert(matches_at(s, pat, 0));
    }
    if contains_seq(s, pat) {
        let i = choose|i: int| matches_at(s, pat, i);
        let l = pat.len() as int;
        assert(s.subrange(i, i + l)[0] == s[i]);
        assert(s.subrange(i, i + l)[l - 1] == s[i + l - 1]);
        assert forall|j: int| 0 <= j < s.len() && s[j] == '%' implies j == 0 || j == n + 1 by {
            if 1 <= j <= n {
                assert(s[j] == name[j - 1]);
            } else if j > n + 1 {
                assert(s[j] == msg[j - n - 2]);
            }
        }
        assert(i == 0);
        assert(pat =~= tag);
    }
}

/// Whether `from` names a component that the log formatter recognises.
pub open spec fn recognised_source(from: u16) -> bool {
    from == 3 || from == 6
}

/// Law: a record that a component logs is printed, for web and wifi, under
/// the component's name, in cyan, with the message alone; for every other
/// component under `main`, in the default style, with the tag left in the
/// text. This holds for messages without a `%` of their own.
pub proof fn law_logged_record_decoration(msg: Seq<char>, from: u16)
    requires
        !msg.contains('%'),
    ensures
        recognised_source(from) ==> {
            &&& decorated_source(tagged_message(source_name(from), msg)) == source_name(from)
            &&& decorated_text(tagged_message(source_name(from), msg)) == msg
            &&& decorated_color(tagged_message(source_name(from), msg)) == Some(LogColor::Cyan)
        },
        !recognised_source(from) ==> {
            &&& decorated_source(tagged_message(source_name(from), msg)) == "main"@
            &&& decorated_text(tagged_message(source_name(from), msg)) == tagged_message(
                source_name(from),
                msg,
            )
            &&& decorated_color(tagged_message(source_name(from), msg)) == None::<LogColor>
        },
{
    reveal_strlit("%controller%");
    reveal_strlit("%web%");
    reveal_strlit("%wifi%");
    reveal_strlit("main");
    reveal_strlit("web");
    reveal_strlit("wifi");
    reveal_strlit("sysinfo");
    reveal_strlit("unknown");
    let name = source_name(from);
    let m = tagged_message(name, msg);
    let tag = seq!['%'] + name + seq!['%'];
    let ctrl = "%controller%"@;
    let web = "%web%"@;
    let wifi = "%wifi%"@;
    assert(!name.contains('%')) by {
        if name.contains('%') {
            let k = choose|k: int| 0 <= k < name.len() && name[k] == '%';
            assert(name[k] == '%');
        }
    }
    assert(m =~= tag + msg);
    lemma_tag_search(name, msg, ctrl);
    lemma_tag_search(name, msg, web);
    lemma_tag_search(name, msg, wifi);
    assert(tag != ctrl) by {
        assert(tag.len() != ctrl.len());
    }
    assert(!contains_seq(m, ctrl));
    assert(after_controller(m) == m);
    lemma_absent_first_char(msg, web);
    lemma_absent_first_char(msg, wifi);
    if from == 3 {
        assert(tag =~= web);
        assert(tag.len() != wifi.len());
        lemma_replace_leading(web, msg, Seq::empty());
        lemma_replace_absent(msg, web, Seq::empty());
        assert(Seq::<char>::empty() + msg =~= msg);
        assert(after_web(m) == msg);
    } else if from == 6 {
        assert(tag =~= wifi);
        assert(tag.len() != web.len());
        assert(after_web(m) == m);
        lemma_replace_leading(wifi, msg, Seq::empty());
        lemma_replace_absent(msg, wifi, Seq::empty());
        assert(Seq::<char>::empty() + msg =~= msg);
    } else {
        assert(tag != web) by {
            assert(tag.len() != web.len());
        }
        assert(tag != wifi) by {
            if tag.len() == wifi.len() {
                assert(from == 0);
                assert(tag[1] != wifi[1]);
            }
        }
        assert(after_web(m) == m);
    }
}

} // verus!
