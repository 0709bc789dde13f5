//! Broker addresses.

use crate::error::Error;
use crate::text;
use vstd::prelude::*;
use vstd::string::*;

verus! {

/// `text` without the slashes that it starts with.
pub open spec fn without_leading_slashes(text: Seq<char>) -> Seq<char>
    decreases text.len(),
{
    if text.len() > 0 && text[0] == '/' {
        without_leading_slashes(text.skip(1))
    } else {
        text
    }
}

/// Where the last colon of `text` stands.
pub open spec fn last_colon(text: Seq<char>) -> Option<int>
    decreases text.len(),
{
    if text.len() == 0 {
        None
    } else if text.last() == ':' {
        Some(text.len() - 1)
    } else {
        last_colon(text.drop_last())
    }
}

/// `c` is a decimal digit.
pub open spec fn is_digit(c: char) -> bool {
    '0' <= c <= '9'
}

/// The number that decimal digits write.
pub open spec fn decimal(digits: Seq<char>) -> nat
    decreases digits.len(),
{
    if digits.len() == 0 {
        0
    } else {
        (decimal(digits.drop_last()) * 10 + (digits.last() as int - '0' as int)) as nat
    }
}

/// Every character of `text` is a decimal digit.
pub open spec fn all_digits(text: Seq<char>) -> bool {
    forall|i: int| 0 <= i < text.len() ==> is_digit(#[trigger] text[i])
}

/// `text` without the plus sign that it may start with.
pub open spec fn without_plus(text: Seq<char>) -> Seq<char> {
    if text.len() > 0 && text[0] == '+' {
        text.skip(1)
    } else {
        text
    }
}

/// The port that `text` writes: decimal digits, one or more, after a plus sign
/// or none, with a value of 65535 at most.
pub open spec fn port_value(text: Seq<char>) -> Option<u16> {
    let digits = without_plus(text);
    if digits.len() > 0 && all_digits(digits) && decimal(digits) <= u16::MAX {
        Some(decimal(digits) as u16)
    } else {
        None
    }
}

/// Host and port of `addr`, or what is wrong with it. The port stands behind
/// the last colon; slashes at the front are dropped.
pub open spec fn hostport(addr: Seq<char>) -> Result<(Seq<char>, u16), Seq<char>> {
    let addr = without_leading_slashes(addr);
    match last_colon(addr) {
        None => Err("missing port in '"@ + addr + "'"@),
        Some(colon) => match port_value(addr.skip(colon + 1)) {
            None => Err("bad port in '"@ + addr + "'"@),
            Some(port) => Ok((addr.take(colon), port)),
        },
    }
}

/// Where the first `://` of `text` begins.
pub open spec fn scheme_end(text: Seq<char>) -> Option<int>
    decreases text.len(),
{
    if text.len() < 3 {
        None
    } else if text[0] == ':' && text[1] == '/' && text[2] == '/' {
        Some(0)
    } else {
        match scheme_end(text.skip(1)) {
            None => None,
            Some(end) => Some(end + 1),
        }
    }
}

/// `c`, in lower case where it is an ASCII letter.
pub open spec fn ascii_lower(c: char) -> char {
    if 'A' <= c <= 'Z' {
        (c as int - 'A' as int + 'a' as int) as char
    } else {
        c
    }
}

/// The scheme of `addr` in lower case (`tcp` where none is written) and what
/// stands behind it.
pub open spec fn scheme_and_rest(addr: Seq<char>) -> (Seq<char>, Seq<char>) {
    match scheme_end(addr) {
        None => ("tcp"@, addr),
        Some(end) => (
            addr.take(end).map_values(|c: char| ascii_lower(c)),
            addr.skip(end + 3),
        ),
    }
}

/// How the bytes travel.
#[derive(Debug, Clone, Copy, PartialEq, Eq, Structural)]
pub enum Transport {
    Tcp,
    Tls,
}

/// Where to dial.
#[derive(Debug, Clone, PartialEq, Eq)]
pub struct Target {
    pub transport: Transport,
    pub host: String,
    pub port: u16,
}

/// Why an address cannot be dialled.
pub enum AddressFault {
    /// It does not parse, or its scheme is unknown.
    Bad(Seq<char>),
    /// It asks for TLS, which this build lacks.
    TlsUnavailable,
}

/// What `addr` says to dial, in a build with TLS or without.
pub open spec fn target(addr: Seq<char>, tls_compiled: bool) -> Result<
    (Transport, Seq<char>, u16),
    AddressFault,
> {
    let (scheme, rest) = scheme_and_rest(addr);
    match hostport(rest) {
        Err(reason) => Err(AddressFault::Bad(reason)),
        Ok((host, port)) => if scheme == "tcp"@ {
            Ok((Transport::Tcp, host, port))
        } else if scheme == "tls"@ {
            if tls_compiled {
                Ok((Transport::Tls, host, port))
            } else {
                Err(AddressFault::TlsUnavailable)
            }
        } else {
            Err(AddressFault::Bad("unsupported scheme '"@ + scheme + "'"@))
        },
    }
}

/// `str::to_ascii_lowercase`: the letters A to Z become a to z, every other
/// character stays.
pub assume_specification[ str::to_ascii_lowercase ](s: &str) -> (lower: String)
    ensures
        lower@ == s@.map_values(|c: char| ascii_lower(c)),
;

/// The characters of `text`.
fn chars_of(text: &str) -> (chars: Vec<char>)
    ensures
        chars@ == text@,
{
    let mut chars: Vec<char> = Vec::new();
    for c in it: text.chars()
        invariant
            chars@ == it.seq().take(it.index()),
            it.seq() == text@,
    {
        chars.push(c);
    }
    chars
}

/// Reads the port that `text` writes.
fn parse_port(text: &Vec<char>, from: usize) -> (port: Option<u16>)
    requires
        from <= text@.len(),
    ensures
        port == port_value(text@.skip(from as int)),
{
    let ghost written = text@.skip(from as int);
    let mut start: usize = from;
    if from < text.len() && text[from] == '+' {
        start = from + 1;
    }
    let ghost digits = text@.skip(start as int);
    assert(digits =~= without_plus(written));
    if start >= text.len() {
        return None;
    }
    let mut value: u32 = 0;
    let mut at: usize = start;
    while at < text.len()
        invariant
            start <= at <= text@.len(),
            digits == text@.skip(start as int),
            digits == without_plus(written),
            written == text@.skip(from as int),
            digits.len() > 0,
            value == decimal(digits.take(at - start)),
            value <= u16::MAX,
            all_digits(digits.take(at - start)),
        decreases text@.len() - at,
    {
        let c: char = text[at];
        assert(c == digits[at - start]);
        if !('0' <= c && c <= '9') {
            assert(!is_digit(digits[at - start]));
            return None;
        }
        assert(digits.take(at + 1 - start).drop_last() =~= digits.take(at - start));
        value = value * 10 + (c as u32 - '0' as u32);
        at = at + 1;
        if value > 65535 {
            proof {
                lemma_decimal_grows(digits, at - start);
            }
            return None;
        }
    }
    assert(digits.take(at - start) =~= digits);
    Some(value as u16)
}

proof fn lemma_decimal_grows(digits: Seq<char>, kept: int)
    requires
        0 <= kept <= digits.len(),
    ensures
        all_digits(digits) ==> decimal(digits.take(kept)) <= decimal(digits),
    decreases digits.len() - kept,
{
    if kept < digits.len() {
        lemma_decimal_grows(digits, kept + 1);
        assert(digits.take(kept + 1).drop_last() =~= digits.take(kept));
    } else {
        assert(digits.take(kept) =~= digits);
    }
}

/// Splits `host:port` at its last colon, past any slashes at the front.
pub fn split_hostport(addr: &str) -> (split: Result<(String, u16), Error>)
    ensures
        match split {
            Ok((host, port)) => hostport(addr@) == Ok::<(Seq<char>, u16), Seq<char>>((host@, port)),
            Err(error) => error matches Error::BadAddress(reason) && hostport(addr@) == Err::<
                (Seq<char>, u16),
                Seq<char>,
            >(reason@),
        },
{
    let chars = chars_of(addr);
    let mut start: usize = 0;
    assert(chars@.skip(0) =~= chars@);
    while start < chars.len() && chars[start] == '/'
        invariant
            start <= chars@.len(),
            without_leading_slashes(chars@.skip(start as int)) == without_leading_slashes(chars@),
        decreases chars@.len() - start,
    {
        assert(chars@.skip(start as int).skip(1) =~= chars@.skip(start + 1));
        start = start + 1;
    }
    let ghost trimmed = chars@.skip(start as int);
    assert(trimmed == without_leading_slashes(addr@));
    let rest = addr.substring_char(start, chars.len());
    assert(rest@ =~= trimmed);
    let mut end: usize = chars.len();
    assert(trimmed.take(end - start) =~= trimmed);
    while end > start && chars[end - 1] != ':'
        invariant
            start <= end <= chars@.len(),
            trimmed == chars@.skip(start as int),
            last_colon(trimmed.take(end - start)) == last_colon(trimmed),
        decreases end,
    {
        assert(trimmed.take(end - start).drop_last() =~= trimmed.take(end - start - 1));
        end = end - 1;
    }
    if end == start {
        return Err(Error::BadAddress(text::join("missing port in '", rest, "'")));
    }
    assert(last_colon(trimmed) == Some(end - start - 1));
    assert(chars@.skip(end as int) =~= trimmed.skip(end - start));
    match parse_port(&chars, end) {
        None => Err(Error::BadAddress(text::join("bad port in '", rest, "'"))),
        Some(port) => {
            let host = addr.substring_char(start, end - 1).to_owned();
            assert(host@ =~= trimmed.take(end - start - 1));
            Ok((host, port))
        },
    }
}

/// Splits `addr` behind its scheme: the scheme in lower case (`tcp` where none
/// is written) and the rest.
fn split_scheme(addr: &str) -> (split: (String, &str))
    ensures
        (split.0@, split.1@) == scheme_and_rest(addr@),
{
    let chars = chars_of(addr);
    let mut at: usize = 0;
    assert(chars@.skip(0) =~= chars@);
    while chars.len() - at >= 3 && !(chars[at] == ':' && chars[at + 1] == '/' && chars[at + 2]
        == '/')
        invariant
            at <= chars@.len(),
            chars@.len() <= usize::MAX,
            scheme_end(chars@) == match scheme_end(chars@.skip(at as int)) {
                None => None::<int>,
                Some(end) => Some(at + end),
            },
        decreases chars@.len() - at,
    {
        assert(chars@.skip(at as int).skip(1) =~= chars@.skip(at + 1));
        at = at + 1;
    }
    if chars.len() - at < 3 {
        return ("tcp".to_owned(), addr);
    }
    let scheme = addr.substring_char(0, at).to_ascii_lowercase();
    let rest = addr.substring_char(at + 3, chars.len());
    assert(addr@.subrange(0, at as int) =~= addr@.take(at as int));
    assert(rest@ =~= addr@.skip(at + 3));
    (scheme, rest)
}

/// Decides where to dial for `addr` (`127.0.0.1:18883`, `tcp://host:port` or
/// `tls://host:port`).
pub fn dial_target(addr: &str, tls_compiled: bool) -> (found: Result<Target, Error>)
    ensures
        match found {
            Ok(found) => target(addr@, tls_compiled) == Ok::<
                (Transport, Seq<char>, u16),
                AddressFault,
            >((found.transport, found.host@, found.port)),
            Err(Error::BadAddress(reason)) => target(addr@, tls_compiled) == Err::<
                (Transport, Seq<char>, u16),
                AddressFault,
            >(AddressFault::Bad(reason@)),
            Err(error) => error is TlsUnavailable && target(addr@, tls_compiled) == Err::<
                (Transport, Seq<char>, u16),
                AddressFault,
            >(AddressFault::TlsUnavailable),
        },
{
    let (scheme, rest) = split_scheme(addr);
    let (host, port): (String, u16) = match split_hostport(rest) {
        Ok(split) => split,
        Err(error) => {
            return Err(error);
        },
    };
    if scheme == "tcp".to_owned() {
        Ok(Target { transport: Transport::Tcp, host, port })
    } else if scheme == "tls".to_owned() {
        if tls_compiled {
            Ok(Target { transport: Transport::Tls, host, port })
        } else {
            Err(Error::TlsUnavailable)
        }
    } else {
        Err(Error::BadAddress(text::join("unsupported scheme '", scheme.as_str(), "'")))
    }
}

/// The error of a host that no address is known for.
pub fn unresolved(host: &str, port: u16) -> (error: Error)
    ensures
        error matches Error::BadAddress(reason) && reason@ == "cannot resolve "@ + host@ + ":"@
            + text::decimal_text(port as nat),
{
    let mut reason = text::join("cannot resolve ", host, ":");
    text::append_decimal(&mut reason, port);
    Error::BadAddress(reason)
}

/// A port written in decimal digits reads back.
pub proof fn law_written_port_reads_back(port: u16)
    ensures
        port_value(text::decimal_text(port as nat)) == Some(port),
{
    lemma_decimal_text(port as nat);
}

proof fn lemma_decimal_text(number: nat)
    ensures
        text::decimal_text(number).len() > 0,
        all_digits(text::decimal_text(number)),
        decimal(text::decimal_text(number)) == number,
    decreases number,
{
    reveal_strlit("0123456789");
    let written = text::decimal_text(number);
    assert(written.last() as int == '0' as int + number % 10);
    if number < 10 {
        assert(decimal(written.drop_last()) == 0);
    } else {
        lemma_decimal_text(number / 10);
        assert(written.drop_last() =~= text::decimal_text(number / 10));
        assert forall|i: int| 0 <= i < written.len() implies is_digit(#[trigger] written[i]) by {
            if i < written.len() - 1 {
                assert(written[i] == text::decimal_text(number / 10)[i]);
            }
        }
    }
}

/// A host and a port joined by a colon come apart again, whatever colons the
/// host itself holds.
pub proof fn law_joined_address_splits(host: Seq<char>, port: Seq<char>)
    requires
        host.len() == 0 || host[0] != '/',
        !port.contains(':'),
        port_value(port) is Some,
    ensures
        hostport(host + seq![':'] + port) == Ok::<(Seq<char>, u16), Seq<char>>(
            (host, port_value(port)->0),
        ),
{
    let addr = host + seq![':'] + port;
    lemma_last_colon_before(host, port);
    assert(addr.skip(host.len() as int + 1) =~= port);
    assert(addr.take(host.len() as int) =~= host);
}

proof fn lemma_last_colon_before(host: Seq<char>, port: Seq<char>)
    requires
        !port.contains(':'),
    ensures
        last_colon(host + seq![':'] + port) == Some(host.len() as int),
    decreases port.len(),
{
    let addr = host + seq![':'] + port;
    if port.len() > 0 {
        let shorter = port.drop_last();
        assert(port[port.len() - 1] != ':');
        assert(!shorter.contains(':')) by {
            if shorter.contains(':') {
                let i = choose|i: int| 0 <= i < shorter.len() && shorter[i] == ':';
                assert(port[i] == ':');
            }
        }
        lemma_last_colon_before(host, shorter);
        assert(addr.drop_last() =~= host + seq![':'] + shorter);
    }
}

/// Slashes before an address mean nothing.
pub proof fn law_leading_slash_is_ignored(addr: Seq<char>)
    ensures
        hostport(seq!['/'] + addr) == hostport(addr),
{
    assert((seq!['/'] + addr).skip(1) =~= addr);
}

/// An address without a scheme is a `tcp` address.
pub proof fn law_tcp_is_the_default(addr: Seq<char>, tls_compiled: bool)
    requires
        scheme_end(addr) is None,
    ensures
        target("tcp://"@ + addr, tls_compiled) == target(addr, tls_compiled),
{
    reveal_strlit("tcp");
    reveal_strlit("tcp://");
    let full = "tcp://"@ + addr;
    lemma_scheme_end_before("tcp"@, addr);
    assert(full =~= "tcp"@ + seq![':', '/', '/'] + addr);
    assert(full.skip(6) =~= addr);
    assert(full.take(3).map_values(|c: char| ascii_lower(c)) =~= "tcp"@);
}

/// The case of a scheme means nothing.
pub proof fn law_scheme_ignores_case(scheme: Seq<char>, rest: Seq<char>, tls_compiled: bool)
    requires
        !scheme.contains(':'),
    ensures
        target(
            scheme.map_values(|c: char| ascii_lower(c)) + seq![':', '/', '/'] + rest,
            tls_compiled,
        ) == target(scheme + seq![':', '/', '/'] + rest, tls_compiled),
{
    let lower = scheme.map_values(|c: char| ascii_lower(c));
    let upper_addr = scheme + seq![':', '/', '/'] + rest;
    let lower_addr = lower + seq![':', '/', '/'] + rest;
    assert(!lower.contains(':')) by {
        if lower.contains(':') {
            let i = choose|i: int| 0 <= i < lower.len() && lower[i] == ':';
            assert(scheme[i] == ':');
        }
    }
    lemma_scheme_end_before(scheme, rest);
    lemma_scheme_end_before(lower, rest);
    assert(upper_addr.take(scheme.len() as int) =~= scheme);
    assert(lower_addr.take(lower.len() as int).map_values(|c: char| ascii_lower(c)) =~= lower);
    assert(upper_addr.skip(scheme.len() as int + 3) =~= rest);
    assert(lower_addr.skip(lower.len() as int + 3) =~= rest);
}

proof fn lemma_scheme_end_before(scheme: Seq<char>, rest: Seq<char>)
    requires
        !scheme.contains(':'),
    ensures
        scheme_end(scheme + seq![':', '/', '/'] + rest) == Some(scheme.len() as int),
    decreases scheme.len(),
{
    let addr = scheme + seq![':', '/', '/'] + rest;
    if scheme.len() > 0 {
        let shorter = scheme.skip(1);
        assert(scheme[0] != ':');
        assert(!shorter.contains(':')) by {
            if shorter.contains(':') {
                let i = choose|i: int| 0 <= i < shorter.len() && shorter[i] == ':';
                assert(scheme[i + 1] == ':');
            }
        }
        lemma_scheme_end_before(shorter, rest);
        assert(addr.skip(1) =~= shorter + seq![':', '/', '/'] + rest);
    }
}

/// ASCII upper-case letters, and nothing else, are put in lower case.
pub proof fn law_lower_case_is_ascii_only(c: char)
    ensures
        0x41 <= c as int <= 0x5a ==> ascii_lower(c) as int == c as int + 0x20,
        !(0x41 <= c as int <= 0x5a) ==> ascii_lower(c) == c,
{
}

/// How a port number is read, one character at a time: a digit is its value, a
/// further digit behind a number is ten times the number and the digit, and above
/// 65535 there is no port. One plus sign may stand before the digits. Nothing, or
/// a lone plus sign, is no port.
pub proof fn law_port_is_read_in_base_10(written: Seq<char>, c: char)
    requires
        forall|i: int| 0 <= i < written.len() ==> 0x30 <= #[trigger] written[i] as int <= 0x39,
        0x30 <= c as int <= 0x39,
    ensures
        port_value(seq![]) is None,
        port_value(seq!['+']) is None,
        written.len() == 0 ==> (port_value(written.push(c)) matches Some(port) && port == c as int
            - 0x30),
        written.len() > 0 ==> match port_value(written) {
            Some(before) => {
                let value = before * 10 + (c as int - 0x30);
                if value <= 65535 {
                    port_value(written.push(c)) matches Some(port) && port == value
                } else {
                    port_value(written.push(c)) is None
                }
            },
            None => port_value(written.push(c)) is None,
        },
        written.len() > 0 ==> port_value(seq!['+'] + written) == port_value(written),
{
    let longer = written.push(c);
    assert(longer.drop_last() =~= written);
    assert(all_digits(written));
    assert(all_digits(longer));
    assert(without_plus(longer) == longer);
    assert(without_plus(written) == written);
    assert(decimal(longer) == decimal(written) * 10 + (c as int - 0x30));
    assert((seq!['+'] + written).skip(1) =~= written);
    assert(without_plus(seq!['+']).len() == 0);
}

/// A character that is no digit, but for one plus sign at the front, makes a
/// text no port.
pub proof fn law_port_holds_digits_only(written: Seq<char>, place: int)
    requires
        0 <= place < written.len(),
        !(0x30 <= written[place] as int <= 0x39),
        place > 0 || written[0] != '+',
    ensures
        port_value(written) is None,
{
    let digits = without_plus(written);
    if written[0] == '+' {
        assert(digits[place - 1] == written[place]);
    } else {
        assert(digits[place] == written[place]);
    }
}

/// An address that holds a colon is split at its last one, which a port has to
/// follow; one that holds none has no port. Errors show the address.
pub proof fn law_port_stands_behind_the_last_colon(host: Seq<char>, port: Seq<char>)
    requires
        host.len() == 0 || host[0] != '/',
    ensures
        !port.contains(':') ==> hostport(host + seq![':'] + port) == match port_value(port) {
            Some(number) => Ok::<(Seq<char>, u16), Seq<char>>((host, number)),
            None => Err("bad port in '"@ + (host + seq![':'] + port) + "'"@),
        },
        !host.contains(':') ==> hostport(host) == Err::<(Seq<char>, u16), Seq<char>>(
            "missing port in '"@ + host + "'"@,
        ),
{
    let addr = host + seq![':'] + port;
    if !port.contains(':') {
        lemma_last_colon_before(host, port);
        assert(addr.skip(host.len() as int + 1) =~= port);
        assert(addr.take(host.len() as int) =~= host);
        assert(addr[0] != '/');
    }
    if !host.contains(':') {
        lemma_no_colon(host);
    }
}

proof fn lemma_no_colon(text: Seq<char>)
    requires
        !text.contains(':'),
    ensures
        last_colon(text) is None,
    decreases text.len(),
{
    if text.len() > 0 {
        assert(text[text.len() - 1] != ':');
        assert(!text.drop_last().contains(':')) by {
            if text.drop_last().contains(':') {
                let i = choose|i: int|
                    0 <= i < text.drop_last().len() && text.drop_last()[i] == ':';
                assert(text[i] == ':');
            }
        }
        lemma_no_colon(text.drop_last());
    }
}

/// `://` stands in `text` at `place`.
pub open spec fn has_mark(text: Seq<char>, place: int) -> bool {
    0 <= place && place + 3 <= text.len() && text[place] == ':' && text[place + 1] == '/'
        && text[place + 2] == '/'
}

proof fn lemma_scheme_ends_at_first_mark(text: Seq<char>, end: int)
    requires
        has_mark(text, end),
        forall|i: int| i < end ==> !has_mark(text, i),
    ensures
        scheme_end(text) == Some(end),
    decreases text.len(),
{
    assert(end > 0 ==> !has_mark(text, 0));
    if end > 0 {
        let shorter = text.skip(1);
        assert(has_mark(shorter, end - 1));
        assert forall|i: int| i < end - 1 implies !has_mark(shorter, i) by {
            assert(!has_mark(text, i + 1));
        }
        lemma_scheme_ends_at_first_mark(shorter, end - 1);
    }
}

proof fn lemma_no_mark(text: Seq<char>)
    requires
        forall|i: int| !has_mark(text, i),
    ensures
        scheme_end(text) is None,
    decreases text.len(),
{
    if text.len() >= 3 {
        let shorter = text.skip(1);
        assert(!has_mark(text, 0));
        assert forall|i: int| !has_mark(shorter, i) by {
            assert(!has_mark(text, i + 1));
        }
        lemma_no_mark(shorter);
    }
}

/// What is dialled for an address with a scheme. `tcp`, in any case, is dialled
/// over TCP; `tls`, in any case, over TLS where the build has it; and each time
/// with the host and the port that are written. Any other scheme is refused, and
/// shown in lower case. What is wrong with host and port comes first.
pub proof fn law_scheme_selects_the_transport(
    scheme: Seq<char>,
    rest: Seq<char>,
    tls_compiled: bool,
)
    requires
        forall|i: int|
            i < scheme.len() ==> !has_mark(scheme + seq![':', '/', '/'] + rest, i),
    ensures
        ({
            let dialled = target(scheme + seq![':', '/', '/'] + rest, tls_compiled);
            let is_tcp = scheme.len() == 3 && (scheme[0] == 't' || scheme[0] == 'T') && (scheme[1]
                == 'c' || scheme[1] == 'C') && (scheme[2] == 'p' || scheme[2] == 'P');
            let is_tls = scheme.len() == 3 && (scheme[0] == 't' || scheme[0] == 'T') && (scheme[1]
                == 'l' || scheme[1] == 'L') && (scheme[2] == 's' || scheme[2] == 'S');
            match hostport(rest) {
                Err(reason) => dialled == Err::<(Transport, Seq<char>, u16), AddressFault>(
                    AddressFault::Bad(reason),
                ),
                Ok((host, port)) => {
                    &&& is_tcp ==> dialled == Ok::<(Transport, Seq<char>, u16), AddressFault>(
                        (Transport::Tcp, host, port),
                    )
                    &&& is_tls && tls_compiled ==> dialled == Ok::<
                        (Transport, Seq<char>, u16),
                        AddressFault,
                    >((Transport::Tls, host, port))
                    &&& is_tls && !tls_compiled ==> dialled == Err::<
                        (Transport, Seq<char>, u16),
                        AddressFault,
                    >(AddressFault::TlsUnavailable)
                    &&& !is_tcp && !is_tls ==> dialled == Err::<
                        (Transport, Seq<char>, u16),
                        AddressFault,
                    >(
                        AddressFault::Bad(
                            "unsupported scheme '"@ + Seq::new(
                                scheme.len(),
                                |i: int| ascii_lower(scheme[i]),
                            ) + "'"@,
                        ),
                    )
                },
            }
        }),
{
    reveal_strlit("tcp");
    reveal_strlit("tls");
    let addr = scheme + seq![':', '/', '/'] + rest;
    let end = scheme.len() as int;
    assert(has_mark(addr, end));
    lemma_scheme_ends_at_first_mark(addr, end);
    let lower = addr.take(end).map_values(|c: char| ascii_lower(c));
    assert(lower =~= Seq::new(scheme.len(), |i: int| ascii_lower(scheme[i])));
    assert(addr.skip(end + 3) =~= rest);
    let t = ascii_lower(scheme[0]);
    let m = ascii_lower(scheme[1]);
    let p = ascii_lower(scheme[2]);
    if scheme.len() == 3 {
        assert(lower == "tcp"@ <==> (t == 't' && m == 'c' && p == 'p')) by {
            assert(lower[0] == t && lower[1] == m && lower[2] == p);
            if t == 't' && m == 'c' && p == 'p' {
                assert(lower =~= "tcp"@);
            }
        }
        assert(lower == "tls"@ <==> (t == 't' && m == 'l' && p == 's')) by {
            assert(lower[0] == t && lower[1] == m && lower[2] == p);
            if t == 't' && m == 'l' && p == 's' {
                assert(lower =~= "tls"@);
            }
        }
    } else {
        assert("tcp"@.len() == 3 && "tls"@.len() == 3 && lower.len() == scheme.len());
    }
}

/// An address in which no `://` stands is dialled over TCP, with the host and the
/// port that are written.
pub proof fn law_no_scheme_means_tcp(addr: Seq<char>, tls_compiled: bool)
    requires
        forall|i: int| !has_mark(addr, i),
    ensures
        target(addr, tls_compiled) == match hostport(addr) {
            Ok((host, port)) => Ok::<(Transport, Seq<char>, u16), AddressFault>(
                (Transport::Tcp, host, port),
            ),
            Err(reason) => Err(AddressFault::Bad(reason)),
        },
{
    lemma_no_mark(addr);
}

} // verus!
