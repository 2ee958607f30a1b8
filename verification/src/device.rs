//! The emulator instances: the console's path, its instance list, and the console
//! commands that check and start the game.
use vstd::prelude::*;
use crate::text::{chars_of, chars_eq, owned, string_from_chars, signed_decimal};
use crate::textsplit::{split_on, split_chars, split_lines, lines_of, parsed_in, parse_int_in, char_vecs_view};
use crate::utils::{push_str, push_signed};

verus! {

/// An emulator instance.
#[derive(Clone, Debug)]
pub struct DeviceInfo {
    /// The instance's number in the console.
    pub index: i32,
    /// The adb address of the instance, `127.0.0.1:<port>`.
    pub serial: String,
    pub title: String,
    /// The instance's top-level window.
    pub handle: isize,
    /// The window that renders the Android screen.
    pub bind_handle: isize,
}

/// What the logic reads of an instance.
pub struct DeviceView {
    pub index: int,
    pub serial: Seq<char>,
    pub title: Seq<char>,
    pub handle: int,
    pub bind_handle: int,
}

impl DeviceInfo {
    /// What the logic reads of the instance.
    pub open spec fn dview(&self) -> DeviceView {
        DeviceView {
            index: self.index as int,
            serial: self.serial@,
            title: self.title@,
            handle: self.handle as int,
            bind_handle: self.bind_handle as int,
        }
    }
}

/// The path of the emulator's console program.
pub fn get_ld_path() -> (r: String)
    ensures
        r@ == "C:\\LDPlayer\\LDPlayer9\\ldconsole.exe"@,
{
    owned("C:\\LDPlayer\\LDPlayer9\\ldconsole.exe")
}

/// The adb port of instance `index`: 5555, plus 2 for every instance before it.
pub open spec fn adb_port(index: int) -> int {
    5555 + index * 2
}

/// The port of instance `index` is computed within the `i32` range.
pub open spec fn port_fits(index: int) -> bool {
    i32::MIN <= index * 2 && adb_port(index) <= i32::MAX
}

/// The instance described by one line of the console's instance list: the fields are
/// separated by commas (index, title, window, render window, whether Android runs,
/// and more); an instance is listed where it has at least seven fields, a window,
/// and Android running. An index or window that cannot be read counts as -1 or 0.
pub open spec fn ld_device(line: Seq<char>) -> Option<DeviceView> {
    let parts = split_on(line, ',');
    if parts.len() < 7 {
        None
    } else {
        let index = match parsed_in(parts[0], i32::MIN as int, i32::MAX as int) {
            Some(v) => v,
            None => -1,
        };
        let handle = match parsed_in(parts[2], isize::MIN as int, isize::MAX as int) {
            Some(v) => v,
            None => 0,
        };
        let bind_handle = match parsed_in(parts[3], isize::MIN as int, isize::MAX as int) {
            Some(v) => v,
            None => 0,
        };
        if handle != 0 && parts[4] == "1"@ {
            Some(
                DeviceView {
                    index,
                    serial: "127.0.0.1:"@ + signed_decimal(adb_port(index)),
                    title: parts[1],
                    handle,
                    bind_handle,
                },
            )
        } else {
            None
        }
    }
}

/// The instances described by the lines, in order.
pub open spec fn devices_of_lines(ls: Seq<Seq<char>>) -> Seq<DeviceView>
    decreases ls.len(),
{
    if ls.len() == 0 {
        Seq::empty()
    } else {
        let rest = devices_of_lines(ls.drop_last());
        match ld_device(ls.last()) {
            Some(d) => rest.push(d),
            None => rest,
        }
    }
}

/// The instances of the console's instance list.
pub open spec fn ld_devices(stdout: Seq<char>) -> Seq<DeviceView> {
    devices_of_lines(lines_of(stdout))
}

/// Every instance listed has a port within the `i32` range.
pub open spec fn ld_ports_fit(stdout: Seq<char>) -> bool {
    forall|i: int|
        0 <= i < lines_of(stdout).len() ==> (#[trigger] ld_device(lines_of(stdout)[i]) matches Some(d) ==> port_fits(d.index))
}

/// The views of a list of instances.
pub open spec fn devices_view(v: Seq<DeviceInfo>) -> Seq<DeviceView> {
    v.map_values(|d: DeviceInfo| d.dview())
}

/// Reads one line of the instance list.
fn parse_ld_line(line: &[char]) -> (r: Option<DeviceInfo>)
    requires
        ld_device(line@) matches Some(d) ==> port_fits(d.index),
    ensures
        match r {
            Some(d) => ld_device(line@) == Some(d.dview()),
            None => ld_device(line@) is None,
        },
{
    let parts = split_chars(line, ',');
    let ghost pv = char_vecs_view(parts@);
    if parts.len() < 7 {
        return None;
    }
    assert(pv[0] == parts@[0]@ && pv[1] == parts@[1]@ && pv[2] == parts@[2]@ && pv[3] == parts@[3]@ && pv[4]
        == parts@[4]@);
    let index: i32 = match parse_int_in(parts[0].as_slice(), i32::MIN as i128, i32::MAX as i128) {
        Some(v) => v as i32,
        None => -1,
    };
    let handle: isize = match parse_int_in(parts[2].as_slice(), isize::MIN as i128, isize::MAX as i128) {
        Some(v) => v as isize,
        None => 0,
    };
    let bind_handle: isize = match parse_int_in(parts[3].as_slice(), isize::MIN as i128, isize::MAX as i128) {
        Some(v) => v as isize,
        None => 0,
    };
    let one = chars_of("1");
    let in_android = chars_eq(parts[4].as_slice(), one.as_slice());
    if handle != 0 && in_android {
        let port: i32 = 5555 + index * 2;
        let mut serial: Vec<char> = Vec::new();
        push_str(&mut serial, "127.0.0.1:");
        push_signed(&mut serial, port as i64);
        let d = DeviceInfo {
            index,
            serial: string_from_chars(serial.as_slice()),
            title: string_from_chars(parts[1].as_slice()),
            handle,
            bind_handle,
        };
        assert(d.dview().serial =~= "127.0.0.1:"@ + signed_decimal(adb_port(index as int)));
        Some(d)
    } else {
        None
    }
}

/// The instances of the console's instance list (the output of `ldconsole list2`).
pub fn parse_ld_devices(stdout: &str) -> (r: Vec<DeviceInfo>)
    requires
        ld_ports_fit(stdout@),
    ensures
        devices_view(r@) == ld_devices(stdout@),
{
    let cs = chars_of(stdout);
    let lines = split_lines(cs.as_slice());
    let ghost lv = char_vecs_view(lines@);
    let mut r: Vec<DeviceInfo> = Vec::new();
    let mut i: usize = 0;
    while i < lines.len()
        invariant
            i <= lines@.len(),
            lv == char_vecs_view(lines@),
            lv == lines_of(stdout@),
            ld_ports_fit(stdout@),
            devices_view(r@) == devices_of_lines(lv.take(i as int)),
        decreases lines@.len() - i,
    {
        assert(lv.take(i as int + 1).drop_last() =~= lv.take(i as int));
        assert(lv[i as int] == lines@[i as int]@);
        let ghost before = devices_view(r@);
        match parse_ld_line(lines[i].as_slice()) {
            Some(d) => {
                r.push(d);
                assert(devices_view(r@) =~= before.push(d.dview()));
            },
            None => {},
        }
        i = i + 1;
    }
    assert(lv.take(lv.len() as int) =~= lv);
    r
}

/// Whether every instance listed has a port within the `i32` range.
pub fn ld_ports_fit_check(stdout: &str) -> (r: bool)
    ensures
        r == ld_ports_fit(stdout@),
{
    let cs = chars_of(stdout);
    let lines = split_lines(cs.as_slice());
    let ghost lv = char_vecs_view(lines@);
    let mut i: usize = 0;
    while i < lines.len()
        invariant
            i <= lines@.len(),
            lv == char_vecs_view(lines@),
            lv == lines_of(stdout@),
            forall|j: int| 0 <= j < i ==> (#[trigger] ld_device(lv[j]) matches Some(d) ==> port_fits(d.index)),
        decreases lines@.len() - i,
    {
        assert(lv[i as int] == lines@[i as int]@);
        let parts = split_chars(lines[i].as_slice(), ',');
        let ghost pv = char_vecs_view(parts@);
        if parts.len() >= 7 {
            assert(pv[0] == parts@[0]@ && pv[2] == parts@[2]@ && pv[4] == parts@[4]@);
            let index: i128 = match parse_int_in(parts[0].as_slice(), i32::MIN as i128, i32::MAX as i128) {
                Some(v) => v,
                None => -1,
            };
            let handle: i128 = match parse_int_in(parts[2].as_slice(), isize::MIN as i128, isize::MAX as i128) {
                Some(v) => v,
                None => 0,
            };
            let one = chars_of("1");
            let listed = handle != 0 && chars_eq(parts[4].as_slice(), one.as_slice());
            if listed && !(index * 2 >= i32::MIN as i128 && 5555 + index * 2 <= i32::MAX as i128) {
                assert(!(ld_device(lv[i as int]) matches Some(d) ==> port_fits(d.index)));
                return false;
            }
        }
        i = i + 1;
    }
    true
}

/// The console arguments that ask instance `index` for the game's process id.
pub fn pidof_args(index: i32) -> (r: Vec<String>)
    ensures
        r@.len() == 5,
        r@[0]@ == "adb"@,
        r@[1]@ == "--index"@,
        r@[2]@ == signed_decimal(index as int),
        r@[3]@ == "--command"@,
        r@[4]@ == "shell pidof com.vng.playtogether"@,
{
    let mut idx: Vec<char> = Vec::new();
    push_signed(&mut idx, index as i64);
    let mut r: Vec<String> = Vec::new();
    r.push(owned("adb"));
    r.push(owned("--index"));
    r.push(string_from_chars(idx.as_slice()));
    r.push(owned("--command"));
    r.push(owned("shell pidof com.vng.playtogether"));
    r
}

/// The console arguments that start the game on instance `index`.
pub fn runapp_args(index: i32) -> (r: Vec<String>)
    ensures
        r@.len() == 5,
        r@[0]@ == "runapp"@,
        r@[1]@ == "--index"@,
        r@[2]@ == signed_decimal(index as int),
        r@[3]@ == "--packagename"@,
        r@[4]@ == "com.vng.playtogether"@,
{
    let mut idx: Vec<char> = Vec::new();
    push_signed(&mut idx, index as i64);
    let mut r: Vec<String> = Vec::new();
    r.push(owned("runapp"));
    r.push(owned("--index"));
    r.push(string_from_chars(idx.as_slice()));
    r.push(owned("--packagename"));
    r.push(owned("com.vng.playtogether"));
    r
}

/// The characters that Unicode calls white space (`char::is_whitespace`).
pub open spec fn is_white(c: char) -> bool {
    let u = c as u32;
    ||| 0x09 <= u <= 0x0d
    ||| u == 0x20
    ||| u == 0x85
    ||| u == 0xa0
    ||| u == 0x1680
    ||| 0x2000 <= u <= 0x200a
    ||| u == 0x2028
    ||| u == 0x2029
    ||| u == 0x202f
    ||| u == 0x205f
    ||| u == 0x3000
}

/// Whether `c` is white space.
pub fn white(c: char) -> (r: bool)
    ensures
        r == is_white(c),
{
    let u = c as u32;
    (0x09 <= u && u <= 0x0d) || u == 0x20 || u == 0x85 || u == 0xa0 || u == 0x1680 || (0x2000 <= u && u <= 0x200a)
        || u == 0x2028 || u == 0x2029 || u == 0x202f || u == 0x205f || u == 0x3000
}

/// The game runs when the process-id query printed something other than white space.
pub open spec fn game_running(stdout: Seq<char>) -> bool {
    exists|i: int| 0 <= i < stdout.len() && !is_white(#[trigger] stdout[i])
}

/// Whether the output of the process-id query shows the game running.
pub fn is_game_running_output(stdout: &str) -> (r: bool)
    ensures
        r == game_running(stdout@),
{
    let cs = chars_of(stdout);
    let mut i: usize = 0;
    while i < cs.len()
        invariant
            i <= cs@.len(),
            cs@ == stdout@,
            forall|j: int| 0 <= j < i ==> is_white(#[trigger] cs@[j]),
        decreases cs@.len() - i,
    {
        if !white(cs[i]) {
            return true;
        }
        i = i + 1;
    }
    false
}

/// The reply to choosing an instance.
pub open spec fn connected_message_text(title: Seq<char>, serial: Seq<char>) -> Seq<char> {
    "🎯 Kết nối: "@ + title + " | Port: "@ + serial
}

/// The reply to choosing instance `device`.
pub fn connected_message(device: &DeviceInfo) -> (r: String)
    ensures
        r@ == connected_message_text(device.title@, device.serial@),
{
    let mut out: Vec<char> = Vec::new();
    push_str(&mut out, "🎯 Kết nối: ");
    push_str(&mut out, device.title.as_str());
    push_str(&mut out, " | Port: ");
    push_str(&mut out, device.serial.as_str());
    assert(out@ =~= connected_message_text(device.title@, device.serial@));
    string_from_chars(out.as_slice())
}

} // verus!
