//! The adb wire protocol as the client speaks it: requests are framed with their byte
//! length in four (or more) lowercase hex digits, replies to `host:devices` carry a
//! hex length, and the device list gives one serial per line.
use vstd::prelude::*;
use crate::text::{chars_of, owned, string_from_chars, signed_decimal};
use crate::textsplit::{split_lines, lines_of, char_vecs_view};
use crate::device::{is_white, white};
use crate::utils::{push_str, push_signed};

verus! {

/// `std::io::Error`, the error of the client's operations.
#[verifier::external_type_specification]
#[verifier::external_body]
pub struct ExIoError(std::io::Error);

/// A client of the adb server at `host:port`.
pub struct AdbClient {
    host: String,
    port: u16,
}

impl AdbClient {
    /// The server's host.
    pub closed spec fn host_view(&self) -> Seq<char> {
        self.host@
    }

    /// The server's port.
    pub closed spec fn port_view(&self) -> u16 {
        self.port
    }

    /// A client of the adb server at `host:port`. Nothing is opened until a request is
    /// made, so this always succeeds.
    pub fn connect_server(host: &str, port: u16) -> (r: std::io::Result<Self>)
        ensures
            r matches Ok(c) && c.host_view() == host@ && c.port_view() == port,
    {
        Ok(AdbClient { host: owned(host), port })
    }

    /// The server's host.
    pub fn host(&self) -> (r: &str)
        ensures
            r@ == self.host_view(),
    {
        self.host.as_str()
    }

    /// The server's port.
    pub fn port(&self) -> (r: u16)
        ensures
            r == self.port_view(),
    {
        self.port
    }
}

/// The lowercase hex digit of `d` (`0 <= d < 16`), as an ASCII byte.
pub open spec fn hex_digit(d: nat) -> u8 {
    if d < 10 { (48 + d) as u8 } else { (87 + d) as u8 }
}

/// The lowercase hex rendering of `n`, without leading zeros.
pub open spec fn hex(n: nat) -> Seq<u8>
    decreases n,
{
    if n < 16 {
        seq![hex_digit(n)]
    } else {
        hex(n / 16).push(hex_digit(n % 16))
    }
}

/// The lowercase hex rendering of `n`, padded with zeros to at least four digits
/// (`{:04x}`).
pub open spec fn hex4(n: nat) -> Seq<u8> {
    if hex(n).len() < 4 {
        Seq::new((4 - hex(n).len()) as nat, |i: int| 48u8) + hex(n)
    } else {
        hex(n)
    }
}

/// A request on the wire: its UTF-8 bytes preceded by their count in hex.
pub open spec fn frame(s: Seq<char>) -> Seq<u8> {
    hex4(vstd::utf8::encode_utf8(s).len()) + vstd::utf8::encode_utf8(s)
}

fn hex_bytes(n: usize) -> (r: Vec<u8>)
    ensures
        r@ == hex(n as nat),
    decreases n,
{
    let d = (n % 16) as u8;
    let b: u8 = if d < 10 { 48 + d } else { 87 + d };
    if n < 16 {
        let mut v: Vec<u8> = Vec::new();
        v.push(b);
        assert(v@ =~= seq![hex_digit(n as nat)]);
        v
    } else {
        let mut v = hex_bytes(n / 16);
        v.push(b);
        v
    }
}

/// Frames request `cmd` for the adb server.
pub fn frame_request(cmd: &str) -> (r: Vec<u8>)
    ensures
        r@ == frame(cmd@),
{
    let bytes = cmd.as_bytes();
    let n = bytes.len();
    let digits = hex_bytes(n);
    let mut r: Vec<u8> = Vec::new();
    let mut k = digits.len();
    while k < 4
        invariant
            digits.len() <= k <= 4 || (k == digits.len() && k >= 4),
            r@ == Seq::new((k - digits.len()) as nat, |i: int| 48u8),
        decreases 4 - k,
    {
        r.push(48u8);
        k = k + 1;
        assert(r@ =~= Seq::new((k - digits.len()) as nat, |i: int| 48u8));
    }
    let mut i: usize = 0;
    let ghost pad = r@;
    while i < digits.len()
        invariant
            i <= digits@.len(),
            r@ == pad + digits@.take(i as int),
        decreases digits@.len() - i,
    {
        r.push(digits[i]);
        i = i + 1;
        assert(r@ =~= pad + digits@.take(i as int));
    }
    let ghost head = r@;
    let mut j: usize = 0;
    while j < n
        invariant
            n == bytes@.len(),
            j <= n,
            r@ == head + bytes@.take(j as int),
        decreases n - j,
    {
        r.push(bytes[j]);
        j = j + 1;
        assert(r@ =~= head + bytes@.take(j as int));
    }
    assert(digits@.take(digits@.len() as int) =~= digits@);
    assert(bytes@.take(n as int) =~= bytes@);
    assert(head =~= hex4(n as nat));
    r
}

/// The framed request that lists the devices.
pub fn devices_request() -> (r: Vec<u8>)
    ensures
        r@ == frame("host:devices"@),
{
    frame_request("host:devices")
}

/// The two requests of a shell command: switch the connection to a device, then run.
pub struct ShellCall {
    pub host: String,
    pub port: u16,
    /// `host:transport:<serial>`, framed.
    pub transport: Vec<u8>,
    /// `shell:<command>`, framed.
    pub command: Vec<u8>,
}

/// The shell command that taps the screen at `(x, y)`.
pub open spec fn tap_command(x: i32, y: i32) -> Seq<char> {
    "input tap "@ + signed_decimal(x as int) + " "@ + signed_decimal(y as int)
}

impl AdbClient {
    /// The requests that run `shell_cmd` on device `serial` through this client's server.
    pub fn shell_call(&self, serial: &str, shell_cmd: &str) -> (r: ShellCall)
        ensures
            r.host@ == self.host_view(),
            r.port == self.port_view(),
            r.transport@ == frame("host:transport:"@ + serial@),
            r.command@ == frame("shell:"@ + shell_cmd@),
    {
        let mut t: Vec<char> = Vec::new();
        push_str(&mut t, "host:transport:");
        push_str(&mut t, serial);
        let ts = string_from_chars(t.as_slice());
        let mut c: Vec<char> = Vec::new();
        push_str(&mut c, "shell:");
        push_str(&mut c, shell_cmd);
        let cs = string_from_chars(c.as_slice());
        ShellCall {
            host: self.host.clone(),
            port: self.port,
            transport: frame_request(ts.as_str()),
            command: frame_request(cs.as_str()),
        }
    }

    /// The requests that tap the screen of device `serial` at `(x, y)`.
    pub fn tap(&self, serial: &str, x: i32, y: i32) -> (r: ShellCall)
        ensures
            r.host@ == self.host_view(),
            r.port == self.port_view(),
            r.transport@ == frame("host:transport:"@ + serial@),
            r.command@ == frame("shell:"@ + tap_command(x, y)),
    {
        let mut c: Vec<char> = Vec::new();
        push_str(&mut c, "input tap ");
        push_signed(&mut c, x as i64);
        push_str(&mut c, " ");
        push_signed(&mut c, y as i64);
        let cmd = string_from_chars(c.as_slice());
        assert(cmd@ =~= tap_command(x, y));
        self.shell_call(serial, cmd.as_str())
    }
}

/// `b` is an ASCII hex digit.
pub open spec fn is_hex_byte(b: u8) -> bool {
    (48 <= b <= 57) || (97 <= b <= 102) || (65 <= b <= 70)
}

/// The value of an ASCII hex digit.
pub open spec fn hex_value(b: u8) -> nat {
    if b <= 57 { (b - 48) as nat } else if b >= 97 { (b - 87) as nat } else { (b - 55) as nat }
}

/// The value of a string of hex digits.
pub open spec fn hex_number(s: Seq<u8>) -> nat
    decreases s.len(),
{
    if s.len() == 0 { 0 } else { hex_number(s.drop_last()) * 16 + hex_value(s.last()) }
}

/// Every byte of `b` is a hex digit.
pub open spec fn all_hex(b: Seq<u8>) -> bool {
    forall|i: int| 0 <= i < b.len() ==> is_hex_byte(#[trigger] b[i])
}

/// The length announced by a reply: the hex number written in the bytes (after an
/// optional `+`), or 0 where they hold anything else.
pub open spec fn reply_length_of(b: Seq<u8>) -> nat {
    let body = if b.len() > 0 && b[0] == 43 { b.drop_first() } else { b };
    if body.len() > 0 && all_hex(body) {
        hex_number(body)
    } else {
        0
    }
}

/// `16` to the power `k`.
pub open spec fn pow16(k: nat) -> nat
    decreases k,
{
    if k == 0 { 1 } else { 16 * pow16((k - 1) as nat) }
}

/// Reads the four-byte hex length of a reply.
pub fn reply_length(len_buf: &[u8]) -> (r: usize)
    requires
        len_buf@.len() == 4,
    ensures
        r == reply_length_of(len_buf@),
{
    let start: usize = if len_buf[0] == 43 { 1 } else { 0 };
    let ghost body = if len_buf@.len() > 0 && len_buf@[0] == 43 { len_buf@.drop_first() } else { len_buf@ };
    assert(body =~= len_buf@.subrange(start as int, 4));
    let mut v: usize = 0;
    let mut i: usize = start;
    proof {
        reveal_with_fuel(pow16, 5);
    }
    while i < 4
        invariant
            start <= i <= 4,
            len_buf@.len() == 4,
            body == len_buf@.subrange(start as int, 4),
            body == if len_buf@.len() > 0 && len_buf@[0] == 43 { len_buf@.drop_first() } else { len_buf@ },
            forall|k: int| start <= k < i ==> is_hex_byte(#[trigger] len_buf@[k]),
            v == hex_number(len_buf@.subrange(start as int, i as int)),
            v < pow16((i - start) as nat),
            pow16((i - start) as nat) <= 0x1_0000,
        decreases 4 - i,
    {
        let b = len_buf[i];
        let d: usize = if 48 <= b && b <= 57 {
            (b - 48) as usize
        } else if 97 <= b && b <= 102 {
            (b - 87) as usize
        } else if 65 <= b && b <= 70 {
            (b - 55) as usize
        } else {
            assert(body[i - start] == len_buf@[i as int]);
            assert(!is_hex_byte(body[i - start]));
            return 0;
        };
        assert(len_buf@.subrange(start as int, i as int + 1).drop_last() =~= len_buf@.subrange(start as int, i as int));
        proof {
            reveal_with_fuel(pow16, 5);
            assert(v * 16 + d < 16 * pow16((i - start) as nat)) by (nonlinear_arith)
                requires
                    v < pow16((i - start) as nat),
                    d < 16,
            ;
        }
        v = v * 16 + d;
        i = i + 1;
    }
    assert forall|k: int| 0 <= k < body.len() implies is_hex_byte(#[trigger] body[k]) by {
        assert(body[k] == len_buf@[k + start]);
    }
    if start == 4 {
        0
    } else {
        v
    }
}

/// The leading run of characters of `l` that are not white space.
pub open spec fn word_prefix(l: Seq<char>) -> Seq<char>
    decreases l.len(),
{
    if l.len() == 0 || is_white(l[0]) {
        Seq::empty()
    } else {
        seq![l[0]] + word_prefix(l.drop_first())
    }
}

/// The first white-space-separated word of `l`, if any.
pub open spec fn first_word(l: Seq<char>) -> Option<Seq<char>>
    decreases l.len(),
{
    if l.len() == 0 {
        None
    } else if is_white(l[0]) {
        first_word(l.drop_first())
    } else {
        Some(word_prefix(l))
    }
}

/// The serials of the device list: the first word of every line that has one.
pub open spec fn serials_of_lines(ls: Seq<Seq<char>>) -> Seq<Seq<char>>
    decreases ls.len(),
{
    if ls.len() == 0 {
        Seq::empty()
    } else {
        let rest = serials_of_lines(ls.drop_last());
        match first_word(ls.last()) {
            Some(w) => rest.push(w),
            None => rest,
        }
    }
}

/// The first word of `l`.
fn first_word_of(l: &[char]) -> (r: Option<Vec<char>>)
    ensures
        match r {
            Some(w) => first_word(l@) == Some(w@),
            None => first_word(l@) is None,
        },
{
    let n = l.len();
    let mut i: usize = 0;
    assert(l@.subrange(0, n as int) =~= l@);
    while i < n && white(l[i])
        invariant
            i <= n,
            n == l@.len(),
            first_word(l@) == first_word(l@.subrange(i as int, n as int)),
        decreases n - i,
    {
        assert(l@.subrange(i as int, n as int).drop_first() =~= l@.subrange(i as int + 1, n as int));
        i = i + 1;
    }
    if i == n {
        assert(l@.subrange(i as int, n as int).len() == 0);
        return None;
    }
    let start = i;
    let mut j: usize = start;
    let mut w: Vec<char> = Vec::new();
    while j < n && !white(l[j])
        invariant
            start <= j <= n,
            n == l@.len(),
            w@ + word_prefix(l@.subrange(j as int, n as int)) == word_prefix(l@.subrange(start as int, n as int)),
        decreases n - j,
    {
        assert(l@.subrange(j as int, n as int).drop_first() =~= l@.subrange(j as int + 1, n as int));
        assert(l@.subrange(j as int, n as int)[0] == l@[j as int]);
        w.push(l[j]);
        assert(w@ + word_prefix(l@.subrange(j as int + 1, n as int)) =~= w@.drop_last() + word_prefix(
            l@.subrange(j as int, n as int),
        ));
        j = j + 1;
    }
    assert(word_prefix(l@.subrange(j as int, n as int)) =~= Seq::<char>::empty());
    assert(w@ =~= word_prefix(l@.subrange(start as int, n as int)));
    Some(w)
}

/// The serials listed in the reply to `host:devices`: the first word of every line.
pub fn device_serials(output: &str) -> (r: Vec<String>)
    ensures
        r@.map_values(|s: String| s@) == serials_of_lines(lines_of(output@)),
{
    let cs = chars_of(output);
    let lines = split_lines(cs.as_slice());
    let ghost lv = char_vecs_view(lines@);
    let mut r: Vec<String> = Vec::new();
    let mut i: usize = 0;
    while i < lines.len()
        invariant
            i <= lines@.len(),
            lv == char_vecs_view(lines@),
            lv == lines_of(output@),
            r@.map_values(|s: String| s@) == serials_of_lines(lv.take(i as int)),
        decreases lines@.len() - i,
    {
        assert(lv.take(i as int + 1).drop_last() =~= lv.take(i as int));
        assert(lv[i as int] == lines@[i as int]@);
        let ghost before = r@.map_values(|s: String| s@);
        match first_word_of(lines[i].as_slice()) {
            Some(w) => {
                r.push(string_from_chars(w.as_slice()));
                assert(r@.map_values(|s: String| s@) =~= before.push(w@));
            },
            None => {},
        }
        i = i + 1;
    }
    assert(lv.take(lv.len() as int) =~= lv);
    r
}

} // verus!
