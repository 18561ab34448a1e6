//! The service's settings: their defaults, their reading from a configuration
//! file, and the command line and upload limits derived from them.

use vstd::prelude::*;
use crate::text::{chars_of, same_text};

verus! {

/// Settings of the firmware-update service.
#[derive(Clone, Debug, PartialEq, Eq)]
pub struct Statics {
    pub web_bind_address: String,
    pub web_bind_port: u16,
    pub web_fwupdate_filesize: usize,
    pub web_fwupdate_path: String,
    pub web_project_name: String,
    pub http_remote_addr: String,
    pub http_remote_fw_type: String,
}

/// What a configuration file yields for each setting: the value when the key
/// is present with a value of the setting's type, `None` otherwise.
#[derive(Clone, Debug, PartialEq, Eq)]
pub struct ConfigEntries {
    pub web_bind_address: Option<String>,
    pub web_bind_port: Option<u16>,
    pub web_fwupdate_filesize: Option<usize>,
    pub web_fwupdate_path: Option<String>,
    pub web_project_name: Option<String>,
    pub http_remote_addr: Option<String>,
    pub http_remote_fw_type: Option<String>,
}

impl ConfigEntries {
    /// Every setting but the bind address, which has a fallback, is present.
    pub open spec fn complete(&self) -> bool {
        &&& self.web_bind_port is Some
        &&& self.web_fwupdate_filesize is Some
        &&& self.web_fwupdate_path is Some
        &&& self.web_project_name is Some
        &&& self.http_remote_addr is Some
        &&& self.http_remote_fw_type is Some
    }
}

/// Size of one mebibyte in bytes.
pub const MIB: usize = 1048576;

/// Memory the multipart reader may hold before spilling to disk: 30 MiB.
pub const UPLOAD_MEMORY_LIMIT: usize = 31457280;

impl Statics {
    /// The built-in settings.
    pub fn default() -> (s: Statics)
        ensures
            s.web_bind_address@ == "0.0.0.0"@,
            s.web_bind_port == 80,
            s.web_fwupdate_filesize == 120,
            s.web_fwupdate_path@ == "/tmp"@,
            s.web_project_name@ == "rollo"@,
            s.http_remote_addr@ == "http://10.10.2.58:8181/"@,
            s.http_remote_fw_type@ == "release"@,
    {
        Statics {
            web_bind_address: String::from_str("0.0.0.0"),
            web_bind_port: 80,
            web_fwupdate_filesize: 120,
            web_fwupdate_path: String::from_str("/tmp"),
            web_project_name: String::from_str("rollo"),
            http_remote_addr: String::from_str("http://10.10.2.58:8181/"),
            http_remote_fw_type: String::from_str("release"),
        }
    }

    /// The settings a configuration file gives: each value from the file, the
    /// bind address falling back to `0.0.0.0` when the file has none.
    pub fn new_from_file(config: ConfigEntries) -> (s: Statics)
        requires
            config.complete(),
        ensures
            s.web_bind_address@ == (match config.web_bind_address {
                Some(a) => a@,
                None => "0.0.0.0"@,
            }),
            s.web_bind_port == config.web_bind_port->0,
            s.web_fwupdate_filesize == config.web_fwupdate_filesize->0,
            s.web_fwupdate_path == config.web_fwupdate_path->0,
            s.web_project_name == config.web_project_name->0,
            s.http_remote_addr == config.http_remote_addr->0,
            s.http_remote_fw_type == config.http_remote_fw_type->0,
    {
        let address = match config.web_bind_address {
            Some(a) => a,
            None => String::from_str("0.0.0.0"),
        };
        Statics {
            web_bind_address: address,
            web_bind_port: config.web_bind_port.unwrap(),
            web_fwupdate_filesize: config.web_fwupdate_filesize.unwrap(),
            web_fwupdate_path: config.web_fwupdate_path.unwrap(),
            web_project_name: config.web_project_name.unwrap(),
            http_remote_addr: config.http_remote_addr.unwrap(),
            http_remote_fw_type: config.http_remote_fw_type.unwrap(),
        }
    }

    /// Whether the upload size limit, in bytes, fits in a `usize`.
    pub open spec fn upload_limit_fits(&self) -> bool {
        self.web_fwupdate_filesize * MIB <= usize::MAX
    }

    /// Largest accepted upload in bytes: the configured size in MiB.
    pub fn upload_total_limit(&self) -> (limit: usize)
        requires
            self.upload_limit_fits(),
        ensures
            limit == self.web_fwupdate_filesize * MIB,
    {
        self.web_fwupdate_filesize * MIB
    }
}

/// The configuration file named on the command line: `<program> -c <file> ...`.
pub fn config_file_argument(args: &Vec<String>) -> (file: Option<String>)
    ensures
        file == (if args.len() > 2 && args@[1]@ == "-c"@ {
            Some(args@[2])
        } else {
            None
        }),
{
    if args.len() > 2 && same_text(args[1].as_str(), "-c") {
        Some(args[2].clone())
    } else {
        None
    }
}

/// A decimal digit.
pub open spec fn is_digit(c: char) -> bool {
    '0' <= c && c <= '9'
}

/// The number that the decimal digits `s` write.
pub open spec fn decimal_value(s: Seq<char>) -> int
    decreases s.len(),
{
    if s.len() == 0 {
        0
    } else {
        decimal_value(s.drop_last()) * 10 + (s.last() as int - '0' as int)
    }
}

/// `s` writes a port number: one or more decimal digits, at most 65535.
pub open spec fn is_port_text(s: Seq<char>) -> bool {
    &&& s.len() > 0
    &&& forall|i: int| 0 <= i < s.len() ==> is_digit(#[trigger] s[i])
    &&& decimal_value(s) <= 65535
}

/// Lemma: a prefix of digits is worth no more than the whole.
proof fn lemma_decimal_prefix(s: Seq<char>, j: int)
    requires
        0 <= j <= s.len(),
        forall|i: int| 0 <= i < s.len() ==> is_digit(#[trigger] s[i]),
    ensures
        0 <= decimal_value(s.take(j)) <= decimal_value(s),
    decreases s.len(),
{
    if s.len() > 0 {
        let t = s.drop_last();
        assert forall|i: int| 0 <= i < t.len() implies is_digit(#[trigger] t[i]) by {
            assert(t[i] == s[i]);
        }
        if j == s.len() {
            assert(s.take(j) =~= s);
            lemma_decimal_prefix(t, t.len() as int);
            assert(t.take(t.len() as int) =~= t);
        } else {
            assert(s.take(j) =~= t.take(j));
            lemma_decimal_prefix(t, j);
        }
    }
}

/// The port number that `text` writes, if it writes one.
pub fn parse_port(text: &str) -> (port: Option<u16>)
    ensures
        port is Some <==> is_port_text(text@),
        port matches Some(p) ==> p == decimal_value(text@),
{
    let chars = chars_of(text);
    if chars.len() == 0 {
        return None;
    }
    let mut value: u32 = 0;
    let mut i: usize = 0;
    while i < chars.len()
        invariant
            chars@ == text@,
            i <= chars.len(),
            forall|k: int| 0 <= k < i ==> is_digit(#[trigger] text@[k]),
            value == decimal_value(text@.take(i as int)),
            value <= 65535,
        decreases chars.len() - i,
    {
        let c = chars[i];
        if c < '0' || c > '9' {
            assert(!is_digit(text@[i as int]));
            return None;
        }
        assert(text@.take(i + 1).drop_last() =~= text@.take(i as int));
        value = value * 10 + (c as u32 - '0' as u32);
        i = i + 1;
        if value > 65535 {
            proof {
                if forall|k: int| 0 <= k < text@.len() ==> is_digit(#[trigger] text@[k]) {
                    lemma_decimal_prefix(text@, i as int);
                }
            }
            return None;
        }
    }
    assert(text@.take(chars.len() as int) =~= text@);
    Some(value as u16)
}

/// The port given on the command line: `<program> -p <port> ...`.
pub fn port_argument(args: &Vec<String>) -> (port: Option<u16>)
    ensures
        port == (if args.len() > 2 && args@[1]@ == "-p"@ && is_port_text(args@[2]@) {
            Some(decimal_value(args@[2]@) as u16)
        } else {
            None
        }),
{
    if args.len() > 2 && same_text(args[1].as_str(), "-p") {
        parse_port(args[2].as_str())
    } else {
        None
    }
}

/// The decimal digit character for `d` in `0..=9`.
pub open spec fn digit_char(d: int) -> char {
    if d == 0 {
        '0'
    } else if d == 1 {
        '1'
    } else if d == 2 {
        '2'
    } else if d == 3 {
        '3'
    } else if d == 4 {
        '4'
    } else if d == 5 {
        '5'
    } else if d == 6 {
        '6'
    } else if d == 7 {
        '7'
    } else if d == 8 {
        '8'
    } else {
        '9'
    }
}

/// The usual decimal rendering of `n`, without leading zeros.
pub open spec fn to_decimal(n: nat) -> Seq<char>
    decreases n,
{
    if n < 10 {
        seq![digit_char(n as int)]
    } else {
        to_decimal(n / 10).push(digit_char((n % 10) as int))
    }
}

/// Lemma: `digit_char(d)` is the digit worth `d`.
proof fn lemma_digit_char(d: int)
    requires
        0 <= d <= 9,
    ensures
        digit_char(d) as int - '0' as int == d,
        '0' <= digit_char(d) <= '9',
{
}

/// Lemma: the rendering of `n` is made of the characters `0` to `9` and is
/// worth `n`.
proof fn lemma_to_decimal(n: nat)
    ensures
        to_decimal(n).len() > 0,
        forall|i: int| 0 <= i < to_decimal(n).len() ==> '0' <= #[trigger] to_decimal(n)[i] <= '9',
        decimal_value(to_decimal(n)) == n,
    decreases n,
{
    if n < 10 {
        lemma_digit_char(n as int);
        let r = to_decimal(n);
        assert(r.drop_last() =~= Seq::<char>::empty());
        assert(decimal_value(r.drop_last()) == 0);
        assert(r.last() == digit_char(n as int));
        assert(decimal_value(r) == decimal_value(r.drop_last()) * 10 + (r.last() as int - '0' as int));
    } else {
        lemma_digit_char((n % 10) as int);
        assert((n / 10) * 10 + n % 10 == n);
        lemma_to_decimal(n / 10);
        let t = to_decimal(n / 10);
        let r = to_decimal(n);
        assert(r.drop_last() =~= t);
        assert(r.last() == digit_char((n % 10) as int));
        assert(decimal_value(r) == decimal_value(r.drop_last()) * 10 + (r.last() as int - '0' as int));
        assert forall|i: int| 0 <= i < to_decimal(n).len() implies '0' <= #[trigger] to_decimal(
            n,
        )[i] <= '9' by {
            if i < t.len() {
                assert(to_decimal(n)[i] == t[i]);
            }
        }
    }
}

/// Law: every port from 0 to 65535, written in decimal, is a port text that
/// reads back as that port; and a port text holds nothing but the digits `0`
/// to `9`.
pub proof fn law_port_text_round_trip(n: nat)
    requires
        n <= 65535,
    ensures
        is_port_text(to_decimal(n)),
        decimal_value(to_decimal(n)) == n,
        forall|s: Seq<char>, i: int|
            is_port_text(s) && 0 <= i < s.len() ==> '0' <= #[trigger] s[i] <= '9',
{
    lemma_to_decimal(n);
    assert forall|i: int| 0 <= i < to_decimal(n).len() implies is_digit(
        #[trigger] to_decimal(n)[i],
    ) by {}
    assert forall|s: Seq<char>, i: int| is_port_text(s) && 0 <= i < s.len() implies '0'
        <= #[trigger] s[i] <= '9' by {
        assert(is_digit(s[i]));
    }
}

} // verus!
