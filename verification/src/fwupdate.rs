//! Decisions of the firmware-update web interface: where the firmware index
//! lives and which links it offers, which bundle an upload request installs,
//! what the update client's answer means, and what the result page shows.

use vstd::prelude::*;
use crate::statics::Statics;
use crate::text::{
    chars_of, contains_exec, contains_seq, law_lines_have_no_newline, lemma_first_newline,
    lines_seq, matches_at, same_text, split_lines, string_views,
};

verus! {

/// The capture group `group` of the first match of the regular expression
/// `pattern` in `haystack`, as the `regex` crate finds it; `None` when the
/// pattern does not compile, does not match, or the group takes no part.
pub uninterp spec fn regex_capture(pattern: Seq<char>, haystack: Seq<char>, group: int) -> Option<Seq<char>>;

/// The view of an optional string.
pub open spec fn opt_view(o: Option<String>) -> Option<Seq<char>> {
    match o {
        Some(s) => Some(s@),
        None => None,
    }
}

/// First position at or after `i` where `pat` occurs in `h`, or -1 when there is none.
pub open spec fn first_match_from(h: Seq<char>, pat: Seq<char>, i: int) -> int
    decreases h.len() + 1 - i,
{
    if i < 0 || i + pat.len() > h.len() {
        -1
    } else if h.subrange(i, i + pat.len()) == pat {
        i
    } else {
        first_match_from(h, pat, i + 1)
    }
}

/// Last position of `c` in `h`, or -1 when there is none.
pub open spec fn last_index_of(h: Seq<char>, c: char) -> int
    decreases h.len(),
{
    if h.len() == 0 {
        -1
    } else if h.last() == c {
        h.len() - 1
    } else {
        last_index_of(h.drop_last(), c)
    }
}

/// The link target in a line without line feeds, as `href="(.+)"` captures it:
/// the text after the first `href="` up to the last quote of the line, when
/// that quote leaves at least one character between them.
pub open spec fn href_capture(line: Seq<char>) -> Option<Seq<char>> {
    let start = first_match_from(line, "href=\""@, 0);
    let end = last_index_of(line, '"');
    if start >= 0 && end >= start + 7 {
        Some(line.subrange(start + 6, end))
    } else {
        None
    }
}

/// `Regex::new(pattern)` followed by `Regex::captures(haystack)` and
/// `Captures::get(group)`: the text of capture group `group` in the leftmost
/// match. The pattern is compiled on each call. The contract names the result
/// for every pattern. For the link pattern `href=\"(.+)\"` on a haystack
/// without line feeds it also states the result, as the crate documents its
/// matching: the leftmost match wins, `.` matches any character but a line
/// feed, and the greedy `.+` reaches as far as a following quote allows.
#[verifier::external_body]
fn capture_group(pattern: &str, haystack: &str, group: usize) -> (res: Option<String>)
    ensures
        opt_view(res) == regex_capture(pattern@, haystack@, group as int),
        pattern@ == "href=\\\"(.+)\\\""@ && group == 1 && !haystack@.contains('\n')
            ==> opt_view(res) == href_capture(haystack@),
{
    let re = match regex::Regex::new(pattern) {
        Ok(re) => re,
        Err(_) => return None,
    };
    match re.captures(haystack) {
        Some(caps) => caps.get(group).map(|m| m.as_str().to_string()),
        None => None,
    }
}

/// The pattern that finds a link target in a line of the firmware index.
pub open spec fn href_pattern() -> Seq<char> {
    "href=\\\"(.+)\\\""@
}

/// The URL of the firmware index for a project and release type.
pub fn firmware_index_url(
    web_project_name: &str,
    http_remote_addr: &str,
    http_remote_fw_type: &str,
) -> (url: String)
    ensures
        url@ == http_remote_addr@ + "/fw/"@ + http_remote_fw_type@ + "/"@ + web_project_name@
            + "/"@,
{
    let mut url = String::from_str(http_remote_addr);
    url.append("/fw/");
    url.append(http_remote_fw_type);
    url.append("/");
    url.append(web_project_name);
    url.append("/");
    url
}

/// The captured links that are kept, in order: every capture but the parent
/// directory `../`.
pub open spec fn kept_links(caps: Seq<Option<Seq<char>>>) -> Seq<Seq<char>>
    decreases caps.len(),
{
    if caps.len() == 0 {
        seq![]
    } else {
        let rest = kept_links(caps.drop_last());
        match caps.last() {
            Some(link) => if link != "../"@ {
                rest.push(link)
            } else {
                rest
            },
            None => rest,
        }
    }
}

/// The links kept from the captures of the index's lines.
pub fn collect_links(captures: Vec<Option<String>>) -> (links: Vec<String>)
    ensures
        string_views(links@) == kept_links(captures@.map_values(|c: Option<String>| opt_view(c))),
{
    let ghost caps = captures@.map_values(|c: Option<String>| opt_view(c));
    let mut links: Vec<String> = Vec::new();
    let mut i: usize = 0;
    while i < captures.len()
        invariant
            caps == captures@.map_values(|c: Option<String>| opt_view(c)),
            i <= captures.len(),
            string_views(links@) == kept_links(caps.take(i as int)),
        decreases captures.len() - i,
    {
        assert(caps.take(i + 1).drop_last() =~= caps.take(i as int));
        let ghost before = links@;
        match &captures[i] {
            Some(link) => {
                if !same_text(link.as_str(), "../") {
                    links.push(link.clone());
                    assert(string_views(links@) =~= string_views(before).push(link@));
                }
            },
            None => {},
        }
        i = i + 1;
    }
    assert(caps.take(captures.len() as int) =~= caps);
    links
}

/// The firmware links that the index page `body` offers: for each line, the
/// target of its link, except the parent directory.
pub open spec fn index_links(body: Seq<char>) -> Seq<Seq<char>> {
    kept_links(lines_seq(body).map_values(|line: Seq<char>| href_capture(line)))
}

/// The firmware bundles that the index page `body` links to: for each line, the
/// first capture of `href="(.+)"`, except the parent directory.
pub fn extract_links(body: &str) -> (links: Vec<String>)
    ensures
        string_views(links@) == index_links(body@),
{
    let lines = split_lines(body);
    proof {
        law_lines_have_no_newline(body@);
    }
    let pattern = "href=\\\"(.+)\\\"";
    let mut captures: Vec<Option<String>> = Vec::new();
    let mut i: usize = 0;
    while i < lines.len()
        invariant
            i <= lines.len(),
            pattern@ == href_pattern(),
            string_views(lines@) == lines_seq(body@),
            forall|a: int, b: int|
                0 <= a < lines_seq(body@).len() && 0 <= b < lines_seq(body@)[a].len()
                    ==> lines_seq(body@)[a][b] != '\n',
            captures@.len() == i,
            forall|k: int|
                0 <= k < i ==> opt_view(#[trigger] captures@[k]) == href_capture(lines@[k]@),
        decreases lines.len() - i,
    {
        let ghost line = lines@[i as int]@;
        assert(line == lines_seq(body@)[i as int]);
        assert(!line.contains('\n')) by {
            if line.contains('\n') {
                let b = choose|b: int| 0 <= b < line.len() && line[b] == '\n';
                assert(lines_seq(body@)[i as int][b] == '\n');
            }
        }
        captures.push(capture_group(pattern, lines[i].as_str(), 1));
        i = i + 1;
    }
    let links = collect_links(captures);
    assert(captures@.map_values(|c: Option<String>| opt_view(c)) =~= lines_seq(body@).map_values(
        |line: Seq<char>| href_capture(line),
    ));
    links
}

/// Law: the links offered never include the parent directory.
pub proof fn law_links_exclude_parent(caps: Seq<Option<Seq<char>>>)
    ensures
        forall|i: int| 0 <= i < kept_links(caps).len() ==> kept_links(caps)[i] != "../"@,
    decreases caps.len(),
{
    if caps.len() > 0 {
        law_links_exclude_parent(caps.drop_last());
        let rest = kept_links(caps.drop_last());
        assert forall|i: int| 0 <= i < kept_links(caps).len() implies kept_links(caps)[i] != "../"@ by {
            if i < rest.len() {
                assert(kept_links(caps)[i] == rest[i]);
            }
        }
    }
}

/// A file that came with an upload request.
#[derive(Clone, Debug, PartialEq, Eq)]
pub struct UploadedFile {
    pub file_name: Option<String>,
    pub size: usize,
}

/// Which bundle an upload request installs.
#[derive(Clone, Debug, PartialEq, Eq)]
pub enum UpdateSource {
    /// A bundle on the firmware server.
    Remote { path: String },
    /// The last uploaded file, stored at `path` (written there only when it is
    /// not empty).
    Local { path: String, persist: bool },
    /// Neither a firmware name nor a file: the request is refused.
    Missing,
}

/// The request names a firmware on the server.
pub open spec fn names_remote_firmware(fw_filename: Seq<char>) -> bool {
    fw_filename.len() > 0 && fw_filename != "-"@
}

/// Which bundle an upload request installs: the named firmware on the server
/// when a name other than `-` is given, else the last uploaded file, else none.
pub fn upload_source(statics: &Statics, fw_filename: &str, files: &Vec<UploadedFile>) -> (src:
    UpdateSource)
    requires
        !names_remote_firmware(fw_filename@) && files.len() > 0 ==> files@.last().file_name is Some,
    ensures
        fw_filename@.len() > 0 && fw_filename@ != "-"@ ==> (src matches UpdateSource::Remote { path }
            && path@ == statics.http_remote_addr@ + "/"@ + statics.http_remote_fw_type@ + "/"@
            + statics.web_project_name@ + "/"@ + fw_filename@),
        (fw_filename@.len() == 0 || fw_filename@ == "-"@) && files.len() > 0 ==> (src matches UpdateSource::Local {
            path,
            persist,
        } && path@ == statics.web_fwupdate_path@ + "/"@ + files@.last().file_name->0@ && persist
            == (files@.last().size > 0)),
        (fw_filename@.len() == 0 || fw_filename@ == "-"@) && files.len() == 0 ==> src
            == UpdateSource::Missing,
{
    proof {
        reveal_strlit("-");
    }
    if fw_filename.unicode_len() > 0 && !same_text(fw_filename, "-") {
        let mut path = statics.http_remote_addr.clone();
        path.append("/");
        path.append(statics.http_remote_fw_type.as_str());
        path.append("/");
        path.append(statics.web_project_name.as_str());
        path.append("/");
        path.append(fw_filename);
        UpdateSource::Remote { path }
    } else if files.len() > 0 {
        let file = &files[files.len() - 1];
        let name = match &file.file_name {
            Some(n) => n,
            None => {
                assert(false);
                return UpdateSource::Missing;
            },
        };
        let mut path = statics.web_fwupdate_path.clone();
        path.append("/");
        path.append(name.as_str());
        UpdateSource::Local { path, persist: file.size > 0 }
    } else {
        UpdateSource::Missing
    }
}

/// The status the page reports for an install that answered `output`
/// (`None` when the installer could not be run).
pub open spec fn spec_update_status(output: Option<Seq<char>>) -> Seq<char> {
    match output {
        Some(out) => if contains_seq(out, " succeeded"@) {
            "rebooting"@
        } else {
            "failed"@
        },
        None => ""@,
    }
}

/// The status and the installer output that the result page shows after an
/// install: `rebooting` when the output reports success, `failed` otherwise,
/// both empty when the installer could not be run.
pub fn rauc_update_status(output: Option<String>) -> (r: (String, String))
    ensures
        r.0@ == spec_update_status(opt_view(output)),
        r.1@ == (match output {
            Some(out) => out@,
            None => ""@,
        }),
{
    match output {
        Some(out) => {
            let text = chars_of(out.as_str());
            let pat = chars_of(" succeeded");
            let status = if contains_exec(&text, &pat) {
                String::from_str("rebooting")
            } else {
                String::from_str("failed")
            };
            (status, out)
        },
        None => (String::from_str(""), String::from_str("")),
    }
}

/// What the result page shows besides the fixed fields, and whether the
/// device reboots after it.
#[derive(Clone, Debug, PartialEq, Eq)]
pub struct PagePlan {
    /// The installer output line by line, shown when there is a status.
    pub info_lines: Option<Vec<String>>,
    /// The device reboots once the page is served.
    pub reboot: bool,
}

/// What the result page shows for an update status and installer output.
pub fn page_plan(rauc_result: &str, rauc_stdout: &str) -> (p: PagePlan)
    ensures
        p.reboot == (rauc_result@ == "rebooting"@),
        rauc_result@.len() == 0 ==> p.info_lines is None,
        rauc_result@.len() > 0 ==> (p.info_lines matches Some(lines) && string_views(lines@)
            == lines_seq(rauc_stdout@)),
{
    proof {
        reveal_strlit("");
        if rauc_result@.len() == 0 {
            assert(rauc_result@ =~= ""@);
        }
    }
    let info_lines = if !same_text(rauc_result, "") {
        Some(split_lines(rauc_stdout))
    } else {
        None
    };
    PagePlan { info_lines, reboot: same_text(rauc_result, "rebooting") }
}

/// Law: after an install the device reboots exactly when the installer reported
/// success, and the page lists the installer's output exactly when it ran.
pub proof fn law_reboot_only_after_success(output: Option<Seq<char>>)
    ensures
        (spec_update_status(output) == "rebooting"@) <==> (output matches Some(out) && contains_seq(
            out,
            " succeeded"@,
        )),
        (spec_update_status(output).len() > 0) <==> output is Some,
{
    reveal_strlit("rebooting");
    reveal_strlit("failed");
    reveal_strlit("");
    assert("failed"@ != "rebooting"@) by {
        assert("failed"@.len() != "rebooting"@.len());
    }
    assert(""@ != "rebooting"@) by {
        assert(""@.len() != "rebooting"@.len());
    }
}

/// Lemma: `last_index_of` finds the position of the last `c`.
proof fn lemma_last_index_of(h: Seq<char>, c: char, k: int)
    requires
        0 <= k < h.len(),
        h[k] == c,
        forall|j: int| k < j < h.len() ==> h[j] != c,
    ensures
        last_index_of(h, c) == k,
    decreases h.len(),
{
    if h.last() != c {
        lemma_last_index_of(h.drop_last(), c, k);
    }
}

/// Lemma: `first_match_from` finds the first occurrence at or after `i`.
proof fn lemma_first_match_from(h: Seq<char>, pat: Seq<char>, i: int, k: int)
    requires
        0 <= i <= k,
        k + pat.len() <= h.len(),
        h.subrange(k, k + pat.len()) == pat,
        forall|j: int| i <= j < k ==> !matches_at(h, pat, j),
    ensures
        first_match_from(h, pat, i) == k,
    decreases k - i,
{
    if i < k {
        assert(!matches_at(h, pat, i));
        lemma_first_match_from(h, pat, i + 1, k);
    }
}

/// Law: an index line `<a href="NAME">TEXT` offers exactly the bundle `NAME`
/// (nothing when it is the parent directory `../`), for every non-empty name
/// and text without quotes or line feeds.
pub proof fn law_index_line_offers_its_link(name: Seq<char>, rest: Seq<char>)
    requires
        name.len() > 0,
        !name.contains('"'),
        !name.contains('\n'),
        !rest.contains('"'),
        !rest.contains('\n'),
    ensures
        index_links("<a href=\""@ + name + "\">"@ + rest) == (if name == "../"@ {
            Seq::<Seq<char>>::empty()
        } else {
            seq![name]
        }),
{
    reveal_strlit("<a href=\"");
    reveal_strlit("\">");
    reveal_strlit("href=\"");
    let pre = "<a href=\""@;
    let post = "\">"@;
    let href = "href=\""@;
    let line = pre + name + post + rest;
    let n = name.len() as int;
    assert(pre.len() == 9 && post.len() == 2 && href.len() == 6);
    assert forall|j: int| 0 <= j < line.len() implies line[j] != '\n' by {
        if 9 <= j < 9 + n {
            assert(line[j] == name[j - 9]);
        } else if j >= 11 + n {
            assert(line[j] == rest[j - 11 - n]);
        }
    }
    lemma_first_newline(line, line.len() as int);
    assert(lines_seq(line) == seq![line]);
    assert forall|j: int| 0 <= j < 3 implies !matches_at(line, href, j) by {
        assert(line.subrange(j, j + 6)[0] == line[j]);
    }
    assert(line.subrange(3, 9) =~= href);
    lemma_first_match_from(line, href, 0, 3);
    assert forall|j: int| 9 + n < j < line.len() implies line[j] != '"' by {
        if j >= 11 + n {
            assert(line[j] == rest[j - 11 - n]);
        }
    }
    lemma_last_index_of(line, '"', 9 + n);
    assert(line.subrange(9, 9 + n) =~= name);
    assert(href_capture(line) == Some(name));
    assert(lines_seq(line).map_values(|l: Seq<char>| href_capture(l)) =~= seq![Some(name)]);
    let caps = seq![Some(name)];
    assert(caps.drop_last() =~= Seq::<Option<Seq<char>>>::empty());
    assert(kept_links(caps.drop_last()) == Seq::<Seq<char>>::empty());
    assert(caps.last() == Some(name));
    assert(index_links(line) == kept_links(caps));
    if name != "../"@ {
        assert(kept_links(caps) =~= seq![name]);
    } else {
        assert(kept_links(caps) =~= Seq::<Seq<char>>::empty());
    }
}

/// Law: a request naming a firmware, by any non-empty name other than `-`,
/// installs that firmware from the server.
pub proof fn law_named_firmware_is_remote(fw_filename: Seq<char>)
    ensures
        names_remote_firmware(fw_filename) <==> (fw_filename.len() > 0 && fw_filename != "-"@),
{
}

} // verus!
