//! Block devices: the commands that mount and unmount them, and the table
//! that `scan` prints.
use vstd::prelude::*;
use vstd::string::*;
use vstd::utf8::{decode_utf8, encode_utf8, is_ascii_chars, is_char_boundary};
use crate::numbers::{format_size, format_size_spec};
use crate::text::{chars_of, has_prefix, push_char, trim_ws, trim_text};
use crate::paths::chars_equal;
use crate::order::{is_stable_order, key_lt, key_views, lex_lt, stable_order};

verus! {

/// Where a device named `mount_name` is mounted: `/mnt/<mount_name>`.
pub open spec fn mountpoint_spec(mount_name: Seq<char>) -> Seq<char> {
    "/mnt/"@ + mount_name
}

/// The mount point for a mount name (see [`mountpoint_spec`]).
pub fn mountpoint_for(mount_name: &str) -> (r: String)
    ensures
        r@ == mountpoint_spec(mount_name@),
{
    let mut r = String::from_str("/mnt/");
    r.append(mount_name);
    r
}

/// A system command: the program and its arguments.
#[derive(Debug)]
pub struct SystemCommand {
    pub program: String,
    pub args: Vec<String>,
}

/// The texts of a list of strings.
pub open spec fn string_views(v: Seq<String>) -> Seq<Seq<char>> {
    Seq::new(v.len(), |i: int| v[i]@)
}

/// The arguments of `sudo` that mount `device` at `mountpoint`; a read-only
/// mount passes `-o ro`, so that the kernel refuses every write to the device.
pub open spec fn mount_args_spec(device: Seq<char>, mountpoint: Seq<char>, read_only: bool) -> Seq<
    Seq<char>,
> {
    if read_only {
        seq!["mount"@, "-o"@, "ro"@, device, mountpoint]
    } else {
        seq!["mount"@, device, mountpoint]
    }
}

/// The command that mounts a device (see [`mount_args_spec`]).
pub fn mount_command(device: &str, mountpoint: &str, read_only: bool) -> (c: SystemCommand)
    ensures
        c.program@ == "sudo"@,
        string_views(c.args@) == mount_args_spec(device@, mountpoint@, read_only),
{
    let mut args: Vec<String> = Vec::new();
    args.push(String::from_str("mount"));
    if read_only {
        args.push(String::from_str("-o"));
        args.push(String::from_str("ro"));
    }
    args.push(String::from_str(device));
    args.push(String::from_str(mountpoint));
    let c = SystemCommand { program: String::from_str("sudo"), args };
    assert(string_views(c.args@) =~= mount_args_spec(device@, mountpoint@, read_only));
    c
}

/// The command that unmounts whatever is mounted at `mountpoint`:
/// `sudo umount <mountpoint>`.
pub fn unmount_command(mountpoint: &str) -> (c: SystemCommand)
    ensures
        c.program@ == "sudo"@,
        string_views(c.args@) == seq!["umount"@, mountpoint@],
{
    let mut args: Vec<String> = Vec::new();
    args.push(String::from_str("umount"));
    args.push(String::from_str(mountpoint));
    let c = SystemCommand { program: String::from_str("sudo"), args };
    assert(string_views(c.args@) =~= seq!["umount"@, mountpoint@]);
    c
}

/// Why a device command failed.
#[derive(Debug)]
pub enum DeviceError {
    /// `mount` exited unsuccessfully.
    MountFailed,
    /// `umount` exited unsuccessfully.
    UnmountFailed,
}

/// The message of a device error.
pub open spec fn device_error_text(e: DeviceError) -> Seq<char> {
    match e {
        DeviceError::MountFailed => "Failed to mount device"@,
        DeviceError::UnmountFailed => "Failed to unmount device"@,
    }
}

impl DeviceError {
    /// The message of the error (see [`device_error_text`]).
    pub fn message(&self) -> (m: String)
        ensures
            m@ == device_error_text(*self),
    {
        match self {
            DeviceError::MountFailed => String::from_str("Failed to mount device"),
            DeviceError::UnmountFailed => String::from_str("Failed to unmount device"),
        }
    }
}

/// The outcome of a mount (`mounting`) or unmount command from whether it
/// exited successfully.
pub fn command_outcome(mounting: bool, success: bool) -> (r: Result<(), DeviceError>)
    ensures
        success ==> r is Ok,
        !success && mounting ==> r matches Err(DeviceError::MountFailed),
        !success && !mounting ==> r matches Err(DeviceError::UnmountFailed),
{
    if success {
        Ok(())
    } else if mounting {
        Err(DeviceError::MountFailed)
    } else {
        Err(DeviceError::UnmountFailed)
    }
}

/// Whether cutting `s` to at most `max` bytes with [`truncate`] keeps whole
/// characters: slicing a `str` anywhere else panics.
pub open spec fn truncate_safe(s: Seq<char>, max: nat) -> bool {
    let b = encode_utf8(s);
    b.len() > max ==> max >= 2 && is_char_boundary(b, max - 2)
}

/// A text longer than `max` bytes cut to its first `max - 2` bytes and `..`.
pub open spec fn truncate_spec(s: Seq<char>, max: nat) -> Seq<char> {
    let b = encode_utf8(s);
    if b.len() > max {
        decode_utf8(b.take(max - 2)) + ".."@
    } else {
        s
    }
}

/// Shortens a text longer than `max` bytes to its first `max - 2` bytes and
/// `..` (`truncate` of the device table).
pub fn truncate(s: &str, max: usize) -> (r: String)
    requires
        truncate_safe(s@, max as nat),
    ensures
        r@ == truncate_spec(s@, max as nat),
{
    broadcast use vstd::utf8::encode_utf8_decode_utf8;
    let nb = s.as_bytes().len();
    if nb > max {
        assert(s.spec_bytes() == encode_utf8(s@));
        let (a, _) = s.split_at(max - 2);
        assert(a.spec_bytes() == encode_utf8(a@));
        assert(encode_utf8(a@) =~= encode_utf8(s@).take(max - 2));
        assert(decode_utf8(encode_utf8(a@)) == a@);
        let mut r = a.to_owned();
        r.append("..");
        assert(r@ == truncate_spec(s@, max as nat));
        r
    } else {
        assert(encode_utf8(s@).len() <= max);
        s.to_owned()
    }
}

/// Whether showing a mount point with [`shorten_mount`] keeps whole characters.
pub open spec fn mount_safe(m: Seq<char>) -> bool {
    let b = encode_utf8(m);
    b.len() > 18 ==> is_char_boundary(b, b.len() - 15)
}

/// A mount point longer than 18 bytes shown as `...` and its last 15 bytes.
pub open spec fn shorten_mount_spec(m: Seq<char>) -> Seq<char> {
    let b = encode_utf8(m);
    if b.len() > 18 {
        "..."@ + decode_utf8(b.skip(b.len() - 15))
    } else {
        m
    }
}

/// Shortens a long mount point (see [`shorten_mount_spec`]).
pub fn shorten_mount(m: &str) -> (r: String)
    requires
        mount_safe(m@),
    ensures
        r@ == shorten_mount_spec(m@),
{
    broadcast use vstd::utf8::encode_utf8_decode_utf8;
    let n = m.as_bytes().len();
    assert(m.spec_bytes() == encode_utf8(m@));
    if n > 18 {
        assert(encode_utf8(m@).len() == n);
        assert(is_char_boundary(encode_utf8(m@), n - 15));
        assert(is_char_boundary(m.spec_bytes(), (n - 15) as int));
        let (_, tail) = m.split_at(n - 15);
        assert(tail.spec_bytes() == encode_utf8(tail@));
        assert(encode_utf8(tail@) =~= encode_utf8(m@).skip(n - 15));
        assert(decode_utf8(encode_utf8(tail@)) == tail@);
        let mut r = String::from_str("...");
        r.append(tail);
        r
    } else {
        m.to_owned()
    }
}

/// `n` spaces.
pub open spec fn spaces(n: nat) -> Seq<char> {
    Seq::new(n, |i: int| ' ')
}

/// `s` padded with spaces on the right to `width` characters, as `{:<width}`
/// formats it.
pub open spec fn pad_spec(s: Seq<char>, width: nat) -> Seq<char> {
    if s.len() < width {
        s + spaces((width - s.len()) as nat)
    } else {
        s
    }
}

/// `s` padded with `-` on the right to `width` characters (`{:-<width}`).
pub open spec fn dashes(width: nat) -> Seq<char> {
    Seq::new(width, |i: int| '-')
}

/// Pads `s` on the right with `fill` to `width` characters.
fn pad_with(s: &mut String, fill: char, width: usize)
    ensures
        final(s)@ == if old(s)@.len() < width {
            old(s)@ + Seq::new((width - old(s)@.len()) as nat, |i: int| fill)
        } else {
            old(s)@
        },
{
    let n = s.unicode_len();
    let mut k = n;
    let ghost base = s@;
    while k < width
        invariant
            n == base.len(),
            n <= k <= width || (n > width && k == n),
            s@ == base + Seq::new((k - n) as nat, |i: int| fill),
        decreases width - k,
    {
        push_char(s, fill);
        k = k + 1;
        assert(s@ =~= base + Seq::new((k - n) as nat, |i: int| fill));
    }
    if n >= width {
        assert(s@ =~= base);
    }
}

/// Appends `part` padded to `width` and one space.
fn push_cell(line: &mut String, part: &str, width: usize)
    ensures
        final(line)@ == old(line)@ + pad_spec(part@, width as nat) + seq![' '],
{
    let mut cell = String::from_str(part);
    pad_with(&mut cell, ' ', width);
    assert(cell@ =~= pad_spec(part@, width as nat));
    line.append(cell.as_str());
    push_char(line, ' ');
}


/// A block device as the table sees it, read from the system by the caller.
#[derive(Debug)]
pub struct DeviceRecord {
    /// The device's name, such as `sda1`.
    pub name: String,
    /// Its full path, such as `/dev/sda1`.
    pub fullname: String,
    /// Its partition UUID; a device has one exactly when it is a partition.
    pub partuuid: Option<String>,
    /// Its filesystem label.
    pub label: Option<String>,
    /// For a partition, the name of the disk it belongs to, when it could be read.
    pub parent: Option<String>,
    /// Its capacity as the system reports it, when it could be read.
    pub capacity: Option<u64>,
    /// The contents of its sysfs `removable` file, when it could be read.
    pub removable: Option<String>,
    /// The contents of its sysfs `ro` file, when it could be read.
    pub read_only: Option<String>,
}

impl DeviceRecord {
    /// A device is a partition exactly when it has a partition UUID
    /// (`lsblk::BlockDevice::is_part`).
    pub fn is_part(&self) -> (r: bool)
        ensures
            r == (self.partuuid is Some),
    {
        self.partuuid.is_some()
    }

    /// A device is a disk exactly when it is not a partition
    /// (`lsblk::BlockDevice::is_disk`).
    pub fn is_disk(&self) -> (r: bool)
        ensures
            r == (self.partuuid is None),
    {
        !self.is_part()
    }
}

/// The texts of a list of (device, mount point) pairs.
pub open spec fn pair_views(v: Seq<(String, String)>) -> Seq<(Seq<char>, Seq<char>)> {
    Seq::new(v.len(), |i: int| (v[i].0@, v[i].1@))
}

/// The mount point of a device in the mount table: the last entry for it,
/// as collecting the table into a map keeps it.
pub open spec fn mount_lookup(ms: Seq<(Seq<char>, Seq<char>)>, key: Seq<char>) -> Option<Seq<char>>
    decreases ms.len(),
{
    if ms.len() == 0 {
        None
    } else if ms.last().0 == key {
        Some(ms.last().1)
    } else {
        mount_lookup(ms.drop_last(), key)
    }
}

/// The mount point shown for a device: by its full path, else by
/// `/dev/<name>`, else `-`.
pub open spec fn mount_text(d: DeviceRecord, ms: Seq<(Seq<char>, Seq<char>)>) -> Seq<char> {
    match mount_lookup(ms, d.fullname@) {
        Some(m) => m,
        None => match mount_lookup(ms, "/dev/"@ + d.name@) {
            Some(m) => m,
            None => "-"@,
        },
    }
}

/// The label shown for a device, `-` when it has none.
pub open spec fn label_text(d: DeviceRecord) -> Seq<char> {
    match d.label {
        Some(l) => l@,
        None => "-"@,
    }
}

/// The size shown for a device, `-` when unknown.
pub open spec fn size_text(d: DeviceRecord) -> Seq<char> {
    match d.capacity {
        Some(c) => format_size_spec(c as nat),
        None => "-"@,
    }
}

/// `T` or `F` for a device whose sysfs `removable` file reads `1` or anything
/// else, `-` when it could not be read.
pub open spec fn removable_text(d: DeviceRecord) -> Seq<char> {
    match d.removable {
        Some(t) => if trim_ws(t@) == "1"@ {
            "T"@
        } else {
            "F"@
        },
        None => "-"@,
    }
}

/// `RO` for a device whose sysfs `ro` file reads `1`, else `RW`.
pub open spec fn permissions_text(d: DeviceRecord) -> Seq<char> {
    match d.read_only {
        Some(t) => if trim_ws(t@) == "1"@ {
            "RO"@
        } else {
            "RW"@
        },
        None => "RW"@,
    }
}

/// The first column: a partition's name after its tree branch, a disk's full
/// path.
pub open spec fn display_name(d: DeviceRecord, prefix: Seq<char>, is_part: bool) -> Seq<char> {
    if is_part {
        prefix + d.name@
    } else {
        d.fullname@
    }
}

/// One row of the device table.
pub open spec fn row_spec(
    d: DeviceRecord,
    prefix: Seq<char>,
    is_part: bool,
    ms: Seq<(Seq<char>, Seq<char>)>,
) -> Seq<char> {
    pad_spec(display_name(d, prefix, is_part), 18) + seq![' '] + pad_spec(
        truncate_spec(label_text(d), 12),
        12,
    ) + seq![' '] + pad_spec(size_text(d), 10) + seq![' '] + pad_spec(
        if is_part {
            "part"@
        } else {
            "disk"@
        },
        5,
    ) + seq![' '] + pad_spec(shorten_mount_spec(mount_text(d, ms)), 18) + seq![' '] + pad_spec(
        removable_text(d),
        5,
    ) + seq![' '] + permissions_text(d)
}

/// Whether a device's row can be built without cutting a character apart.
pub open spec fn row_safe(d: DeviceRecord, ms: Seq<(Seq<char>, Seq<char>)>) -> bool {
    truncate_safe(label_text(d), 12) && mount_safe(mount_text(d, ms))
}

/// The encoding of two texts one after the other is their encodings one after
/// the other.
proof fn lemma_encode_concat(a: Seq<char>, b: Seq<char>)
    ensures
        encode_utf8(a + b) == encode_utf8(a) + encode_utf8(b),
    decreases a.len(),
{
    if a.len() == 0 {
        assert(a + b =~= b);
        assert(encode_utf8(a) + encode_utf8(b) =~= encode_utf8(b));
    } else {
        assert((a + b)[0] == a[0]);
        assert((a + b).drop_first() =~= a.drop_first() + b);
        lemma_encode_concat(a.drop_first(), b);
        assert(encode_utf8(a + b) =~= encode_utf8(a) + encode_utf8(b));
    }
}

/// An ASCII text has one byte per character, and may be cut at any of them.
proof fn lemma_ascii_boundaries(s: Seq<char>, k: int)
    requires
        is_ascii_chars(s),
        0 <= k <= s.len(),
    ensures
        encode_utf8(s).len() == s.len(),
        is_char_boundary(encode_utf8(s), k),
{
    vstd::utf8::is_ascii_chars_encode_utf8(s);
    vstd::utf8::encode_utf8_valid_utf8(s);
    let b = encode_utf8(s);
    if k == b.len() {
        vstd::utf8::is_char_boundary_start_end_of_seq(b);
    } else {
        vstd::utf8::is_char_boundary_iff_is_leading_byte(b, k);
        vstd::utf8::is_ascii_chars_nat_bound(s);
        let c = s[k];
        assert((c as nat) < 128);
        assert(c as u8 == b[k]);
        assert(b[k] <= 0x7f);
    }
}

proof fn lemma_dash_ascii()
    ensures
        is_ascii_chars("-"@),
{
    reveal_strlit("-");
}

/// A mount point found in a table of ASCII mount points is ASCII.
proof fn lemma_lookup_ascii(ms: Seq<(Seq<char>, Seq<char>)>, key: Seq<char>)
    requires
        forall|k: int| 0 <= k < ms.len() ==> is_ascii_chars(#[trigger] ms[k].1),
    ensures
        mount_lookup(ms, key) matches Some(m) ==> is_ascii_chars(m),
    decreases ms.len(),
{
    if ms.len() > 0 {
        assert(ms.last() == ms[ms.len() - 1]);
        let t = ms.drop_last();
        assert forall|k: int| 0 <= k < t.len() implies is_ascii_chars(#[trigger] t[k].1) by {
            assert(t[k] == ms[k]);
        }
        lemma_lookup_ascii(t, key);
    }
}

/// A device's row can be built exactly when its label, if longer than 12
/// bytes, can be cut after its 10th byte without splitting a character, and
/// its mount point, if longer than 18 bytes, can be cut before its last 15
/// bytes likewise.
pub proof fn lemma_row_safe_exactly(d: DeviceRecord, ms: Seq<(Seq<char>, Seq<char>)>)
    ensures
        row_safe(d, ms) <==> ({
            let lb = encode_utf8(label_text(d));
            let mb = encode_utf8(mount_text(d, ms));
            &&& lb.len() <= 12 || is_char_boundary(lb, 10)
            &&& mb.len() <= 18 || is_char_boundary(mb, mb.len() - 15)
        }),
{
}

/// A device with an ASCII label (or none), in a mount table of ASCII mount
/// points, always has a row that can be built, however long the label.
pub proof fn lemma_ascii_row_safe(d: DeviceRecord, ms: Seq<(Seq<char>, Seq<char>)>)
    requires
        d.label matches Some(l) ==> is_ascii_chars(l@),
        forall|k: int| 0 <= k < ms.len() ==> is_ascii_chars(#[trigger] ms[k].1),
    ensures
        row_safe(d, ms),
{
    lemma_dash_ascii();
    lemma_lookup_ascii(ms, d.fullname@);
    lemma_lookup_ascii(ms, "/dev/"@ + d.name@);
    let l = label_text(d);
    let m = mount_text(d, ms);
    assert(is_ascii_chars(l));
    assert(is_ascii_chars(m));
    lemma_ascii_boundaries(l, 0);
    lemma_ascii_boundaries(m, 0);
    if l.len() > 12 {
        lemma_ascii_boundaries(l, 10);
    }
    if m.len() > 18 {
        lemma_ascii_boundaries(m, m.len() - 15);
    }
}

/// The label cell of a row: after the name cell and a space comes the label
/// (`-` when there is none) when it fits in 12 bytes, else its first 10 bytes
/// and `..`, padded to 12 characters, then a space.  A label cell that can be
/// built holds at most 12 bytes.
pub proof fn lemma_row_label_cell(
    d: DeviceRecord,
    prefix: Seq<char>,
    is_part: bool,
    ms: Seq<(Seq<char>, Seq<char>)>,
)
    ensures
        ({
            let lb = encode_utf8(label_text(d));
            let cell = if lb.len() <= 12 {
                label_text(d)
            } else {
                decode_utf8(lb.take(10)) + ".."@
            };
            let head = pad_spec(display_name(d, prefix, is_part), 18) + seq![' '] + pad_spec(cell, 12)
                + seq![' '];
            &&& row_spec(d, prefix, is_part, ms).take(head.len() as int) == head
            &&& (lb.len() <= 12 || is_char_boundary(lb, 10)) ==> encode_utf8(cell).len() <= 12
        }),
{
    let l = label_text(d);
    let lb = encode_utf8(l);
    let cell = if lb.len() <= 12 {
        l
    } else {
        decode_utf8(lb.take(10)) + ".."@
    };
    assert(cell == truncate_spec(l, 12));
    let head = pad_spec(display_name(d, prefix, is_part), 18) + seq![' '] + pad_spec(cell, 12)
        + seq![' '];
    assert(row_spec(d, prefix, is_part, ms).take(head.len() as int) =~= head);
    if lb.len() > 12 && is_char_boundary(lb, 10) {
        vstd::utf8::encode_utf8_valid_utf8(l);
        vstd::utf8::valid_utf8_split(lb, 10);
        assert(lb.take(10) =~= lb.subrange(0, 10));
        vstd::utf8::decode_utf8_encode_utf8(lb.take(10));
        let x = decode_utf8(lb.take(10));
        lemma_encode_concat(x, ".."@);
        reveal_strlit("..");
        assert(is_ascii_chars(".."@));
        lemma_ascii_boundaries(".."@, 0);
    }
}

/// The mount cell of a row and what follows it: the mount point (`-` when the
/// device is not mounted) when it fits in 18 bytes, else `...` and its last
/// 15 bytes, padded to 18 characters; then a space, the removable cell padded
/// to 5, a space and the permissions, which end the row.  A mount cell that
/// can be built holds at most 18 bytes.
pub proof fn lemma_row_mount_cell(
    d: DeviceRecord,
    prefix: Seq<char>,
    is_part: bool,
    ms: Seq<(Seq<char>, Seq<char>)>,
)
    ensures
        ({
            let mb = encode_utf8(mount_text(d, ms));
            let cell = if mb.len() <= 18 {
                mount_text(d, ms)
            } else {
                "..."@ + decode_utf8(mb.skip(mb.len() - 15))
            };
            let tail = pad_spec(cell, 18) + seq![' '] + pad_spec(removable_text(d), 5) + seq![' ']
                + permissions_text(d);
            let row = row_spec(d, prefix, is_part, ms);
            &&& tail.len() <= row.len()
            &&& row.skip(row.len() - tail.len()) == tail
            &&& (mb.len() <= 18 || is_char_boundary(mb, mb.len() - 15)) ==> encode_utf8(cell).len()
                <= 18
        }),
{
    let m = mount_text(d, ms);
    let mb = encode_utf8(m);
    let cell = if mb.len() <= 18 {
        m
    } else {
        "..."@ + decode_utf8(mb.skip(mb.len() - 15))
    };
    assert(cell == shorten_mount_spec(m));
    let tail = pad_spec(cell, 18) + seq![' '] + pad_spec(removable_text(d), 5) + seq![' ']
        + permissions_text(d);
    let row = row_spec(d, prefix, is_part, ms);
    assert(row.skip(row.len() - tail.len()) =~= tail);
    if mb.len() > 18 && is_char_boundary(mb, mb.len() - 15) {
        vstd::utf8::encode_utf8_valid_utf8(m);
        vstd::utf8::valid_utf8_split(mb, mb.len() - 15);
        assert(mb.skip(mb.len() - 15) =~= mb.subrange(mb.len() - 15, mb.len() as int));
        vstd::utf8::decode_utf8_encode_utf8(mb.skip(mb.len() - 15));
        let x = decode_utf8(mb.skip(mb.len() - 15));
        lemma_encode_concat("..."@, x);
        reveal_strlit("...");
        assert(is_ascii_chars("..."@));
        lemma_ascii_boundaries("..."@, 0);
    }
}

fn lookup_mount(ms: &Vec<(String, String)>, key: &str) -> (r: Option<String>)
    ensures
        match r {
            Some(m) => mount_lookup(pair_views(ms@), key@) == Some(m@),
            None => mount_lookup(pair_views(ms@), key@) is None,
        },
{
    let kv = chars_of(key);
    let mut i = ms.len();
    assert(pair_views(ms@).take(i as int) =~= pair_views(ms@));
    while i > 0
        invariant
            i <= ms.len(),
            kv@ == key@,
            mount_lookup(pair_views(ms@), key@) == mount_lookup(pair_views(ms@).take(i as int), key@),
        decreases i,
    {
        let dv = chars_of(ms[i - 1].0.as_str());
        assert(pair_views(ms@).take(i as int).drop_last() =~= pair_views(ms@).take(i - 1));
        if chars_equal(&dv, &kv) {
            return Some(ms[i - 1].1.clone());
        }
        i = i - 1;
    }
    None
}

fn mount_of(d: &DeviceRecord, ms: &Vec<(String, String)>) -> (r: String)
    ensures
        r@ == mount_text(*d, pair_views(ms@)),
{
    match lookup_mount(ms, d.fullname.as_str()) {
        Some(m) => m,
        None => {
            let alt = {
                let mut a = String::from_str("/dev/");
                a.append(d.name.as_str());
                a
            };
            match lookup_mount(ms, alt.as_str()) {
                Some(m) => m,
                None => String::from_str("-"),
            }
        },
    }
}

fn is_one(t: &String) -> (r: bool)
    ensures
        r == (trim_ws(t@) == "1"@),
{
    let tt = trim_text(t.as_str());
    let v = chars_of(tt.as_str());
    chars_equal(&v, &chars_of("1"))
}

/// Whether a device's row can be built (see [`row_safe`]).
pub fn row_is_safe(d: &DeviceRecord, ms: &Vec<(String, String)>) -> (r: bool)
    ensures
        r == row_safe(*d, pair_views(ms@)),
{
    let label = match &d.label {
        Some(l) => l.clone(),
        None => String::from_str("-"),
    };
    let ls = label.as_str();
    let lb = ls.as_bytes().len();
    let label_ok = lb <= 12 || ls.is_char_boundary(10);
    assert(ls.spec_bytes() == encode_utf8(label_text(*d)));
    let m = mount_of(d, ms);
    let msr = m.as_str();
    let mb = msr.as_bytes().len();
    let mount_ok = mb <= 18 || msr.is_char_boundary(mb - 15);
    assert(msr.spec_bytes() == encode_utf8(mount_text(*d, pair_views(ms@))));
    label_ok && mount_ok
}

/// Builds one row of the device table (see [`row_spec`]).
pub fn device_row(d: &DeviceRecord, prefix: &str, is_part: bool, ms: &Vec<(String, String)>) -> (r: String)
    requires
        row_safe(*d, pair_views(ms@)),
    ensures
        r@ == row_spec(*d, prefix@, is_part, pair_views(ms@)),
{
    let mut line = String::new();
    let name = if is_part {
        let mut n = String::from_str(prefix);
        n.append(d.name.as_str());
        n
    } else {
        d.fullname.clone()
    };
    push_cell(&mut line, name.as_str(), 18);
    let label = match &d.label {
        Some(l) => l.clone(),
        None => String::from_str("-"),
    };
    let short = truncate(label.as_str(), 12);
    push_cell(&mut line, short.as_str(), 12);
    let size = match d.capacity {
        Some(c) => format_size(c),
        None => String::from_str("-"),
    };
    push_cell(&mut line, size.as_str(), 10);
    push_cell(&mut line, if is_part { "part" } else { "disk" }, 5);
    let m = mount_of(d, ms);
    let shown = shorten_mount(m.as_str());
    push_cell(&mut line, shown.as_str(), 18);
    let rem = match &d.removable {
        Some(t) => if is_one(t) { "T" } else { "F" },
        None => "-",
    };
    push_cell(&mut line, rem, 5);
    let perm = match &d.read_only {
        Some(t) => if is_one(t) { "RO" } else { "RW" },
        None => "RW",
    };
    line.append(perm);
    assert(line@ =~= row_spec(*d, prefix@, is_part, pair_views(ms@)));
    line
}

/// The two header lines of the device table.
pub open spec fn header_lines() -> Seq<Seq<char>> {
    seq![
        pad_spec("NAME"@, 18) + seq![' '] + pad_spec("LABEL"@, 12) + seq![' '] + pad_spec("SIZE"@, 10)
            + seq![' '] + pad_spec("TYPE"@, 5) + seq![' '] + pad_spec("MOUNT"@, 18) + seq![' ']
            + pad_spec("REM"@, 5) + seq![' '] + "PERM"@,
        dashes(18) + seq![' '] + dashes(12) + seq![' '] + dashes(10) + seq![' '] + dashes(5) + seq![
            ' ',
        ] + dashes(18) + seq![' '] + dashes(5) + seq![' '] + dashes(10),
    ]
}

fn header() -> (r: Vec<String>)
    ensures
        string_views(r@) == header_lines(),
{
    let mut a = String::new();
    push_cell(&mut a, "NAME", 18);
    push_cell(&mut a, "LABEL", 12);
    push_cell(&mut a, "SIZE", 10);
    push_cell(&mut a, "TYPE", 5);
    push_cell(&mut a, "MOUNT", 18);
    push_cell(&mut a, "REM", 5);
    a.append("PERM");
    let mut b = String::new();
    let mut dash = String::new();
    pad_with(&mut dash, '-', 18);
    b.append(dash.as_str());
    push_char(&mut b, ' ');
    let mut dash = String::new();
    pad_with(&mut dash, '-', 12);
    b.append(dash.as_str());
    push_char(&mut b, ' ');
    let mut dash = String::new();
    pad_with(&mut dash, '-', 10);
    b.append(dash.as_str());
    push_char(&mut b, ' ');
    let mut dash = String::new();
    pad_with(&mut dash, '-', 5);
    b.append(dash.as_str());
    push_char(&mut b, ' ');
    let mut dash = String::new();
    pad_with(&mut dash, '-', 18);
    b.append(dash.as_str());
    push_char(&mut b, ' ');
    let mut dash = String::new();
    pad_with(&mut dash, '-', 5);
    b.append(dash.as_str());
    push_char(&mut b, ' ');
    let mut dash = String::new();
    pad_with(&mut dash, '-', 10);
    b.append(dash.as_str());
    let mut r: Vec<String> = Vec::new();
    r.push(a);
    r.push(b);
    assert(r@[1]@ =~= header_lines()[1]);
    assert(string_views(r@) =~= header_lines());
    r
}


/// Whether a device's name begins with `loop` (loop devices are not listed).
pub open spec fn is_loop(d: DeviceRecord) -> bool {
    has_prefix(d.name@, "loop"@)
}

/// The positions of the disks that the table lists, in input order.
pub open spec fn disk_indices(devs: Seq<DeviceRecord>) -> Seq<usize>
    decreases devs.len(),
{
    if devs.len() == 0 {
        seq![]
    } else {
        let r = disk_indices(devs.drop_last());
        if devs.last().partuuid is None && !is_loop(devs.last()) {
            r.push((devs.len() - 1) as usize)
        } else {
            r
        }
    }
}

/// The positions of the partitions that the table may list, in input order.
pub open spec fn part_indices(devs: Seq<DeviceRecord>) -> Seq<usize>
    decreases devs.len(),
{
    if devs.len() == 0 {
        seq![]
    } else {
        let r = part_indices(devs.drop_last());
        if devs.last().partuuid is Some && !is_loop(devs.last()) {
            r.push((devs.len() - 1) as usize)
        } else {
            r
        }
    }
}

/// Whether a device's parent disk is known to be `name`.
pub open spec fn parent_is(d: DeviceRecord, name: Seq<char>) -> bool {
    match d.parent {
        Some(p) => p@ == name,
        None => false,
    }
}

/// The partitions among `parts` that belong to the disk `name`, in order.
pub open spec fn children_in(devs: Seq<DeviceRecord>, parts: Seq<usize>, name: Seq<char>) -> Seq<usize>
    decreases parts.len(),
{
    if parts.len() == 0 {
        seq![]
    } else {
        let r = children_in(devs, parts.drop_last(), name);
        if parent_is(devs[parts.last() as int], name) {
            r.push(parts.last())
        } else {
            r
        }
    }
}

/// The partitions listed under the disk at position `disk`.
pub open spec fn kids_of(devs: Seq<DeviceRecord>, disk: usize) -> Seq<usize> {
    children_in(devs, part_indices(devs), devs[disk as int].name@)
}

/// Sort keys by device name.
pub open spec fn name_keys(devs: Seq<DeviceRecord>, idx: Seq<usize>) -> Seq<(bool, Seq<char>)> {
    Seq::new(idx.len(), |i: int| (false, devs[idx[i] as int].name@))
}

/// The tree branch before the `j`-th of `m` partitions: `└─` for the last.
pub open spec fn branch(j: int, m: int) -> Seq<char> {
    if j == m - 1 {
        "└─"@
    } else {
        "├─"@
    }
}

/// A disk's row and, under it, the rows of its partitions in the order `q`.
pub open spec fn disk_block(
    devs: Seq<DeviceRecord>,
    ms: Seq<(Seq<char>, Seq<char>)>,
    disk: usize,
    q: Seq<usize>,
) -> Seq<Seq<char>> {
    let kids = kids_of(devs, disk);
    seq![row_spec(devs[disk as int], ""@, false, ms)] + Seq::new(
        q.len(),
        |j: int| row_spec(devs[kids[q[j] as int] as int], branch(j, q.len() as int), true, ms),
    )
}

/// The orders the table is printed in: `p` sorts the disks by name, and `qs[k]`
/// sorts the partitions of the `k`-th disk by name, both stably.
pub open spec fn scan_orders(devs: Seq<DeviceRecord>, p: Seq<usize>, qs: Seq<Seq<usize>>) -> bool {
    let disks = disk_indices(devs);
    &&& is_stable_order(p, name_keys(devs, disks))
    &&& qs.len() == p.len()
    &&& forall|k: int|
        0 <= k < p.len() ==> is_stable_order(
            #[trigger] qs[k],
            name_keys(devs, kids_of(devs, disks[p[k] as int])),
        )
}

/// The order of the table: of two disks, the earlier's name is not greater
/// than the later's (character by character), and disks with equal names
/// keep the order in which they were listed; the same holds of the partitions
/// under each disk.
pub proof fn lemma_scan_name_order(
    devs: Seq<DeviceRecord>,
    p: Seq<usize>,
    qs: Seq<Seq<usize>>,
    k: int,
    i: int,
    j: int,
)
    requires
        scan_orders(devs, p, qs),
    ensures
        ({
            let disks = disk_indices(devs);
            0 <= i < j < p.len() ==> {
                let a = devs[disks[p[i] as int] as int].name@;
                let b = devs[disks[p[j] as int] as int].name@;
                &&& lex_lt(a, b) || a == b
                &&& a == b ==> p[i] < p[j]
            }
        }),
        ({
            let disks = disk_indices(devs);
            0 <= k < p.len() && 0 <= i < j < qs[k].len() ==> {
                let kids = kids_of(devs, disks[p[k] as int]);
                let a = devs[kids[qs[k][i] as int] as int].name@;
                let b = devs[kids[qs[k][j] as int] as int].name@;
                &&& lex_lt(a, b) || a == b
                &&& a == b ==> qs[k][i] < qs[k][j]
            }
        }),
{
    let disks = disk_indices(devs);
    if 0 <= i < j < p.len() {
        let keys = name_keys(devs, disks);
        assert(p[i] < keys.len() && p[j] < keys.len());
        assert(key_lt(keys[p[i] as int], keys[p[j] as int]) || (keys[p[i] as int] == keys[p[j] as int]
            && p[i] < p[j]));
        crate::order::lemma_lex_irreflexive(keys[p[i] as int].1);
    }
    if 0 <= k < p.len() && 0 <= i < j < qs[k].len() {
        let kids = kids_of(devs, disks[p[k] as int]);
        let q = qs[k];
        let keys = name_keys(devs, kids);
        assert(is_stable_order(q, keys));
        assert(q[i] < keys.len() && q[j] < keys.len());
        assert(key_lt(keys[q[i] as int], keys[q[j] as int]) || (keys[q[i] as int] == keys[q[j] as int]
            && q[i] < q[j]));
        crate::order::lemma_lex_irreflexive(keys[q[i] as int].1);
    }
}

/// The blocks of the table for the disks in the order `p`.
pub open spec fn scan_blocks(
    devs: Seq<DeviceRecord>,
    ms: Seq<(Seq<char>, Seq<char>)>,
    p: Seq<usize>,
    qs: Seq<Seq<usize>>,
) -> Seq<Seq<Seq<char>>> {
    Seq::new(p.len(), |k: int| disk_block(devs, ms, disk_indices(devs)[p[k] as int], qs[k]))
}

/// The device table: its header, then each listed disk (not a loop device),
/// sorted by name, followed by its partitions (those whose parent is the disk),
/// sorted by name, each after a tree branch.
pub open spec fn scan_lines(
    devs: Seq<DeviceRecord>,
    ms: Seq<(Seq<char>, Seq<char>)>,
    p: Seq<usize>,
    qs: Seq<Seq<usize>>,
) -> Seq<Seq<char>> {
    header_lines() + scan_blocks(devs, ms, p, qs).flatten()
}

/// Whether every row of the table can be built without cutting a character.
pub open spec fn scan_safe(devs: Seq<DeviceRecord>, ms: Seq<(Seq<char>, Seq<char>)>) -> bool {
    let disks = disk_indices(devs);
    forall|i: int|
        0 <= i < disks.len() ==> {
            &&& row_safe(devs[#[trigger] disks[i] as int], ms)
            &&& forall|j: int|
                0 <= j < kids_of(devs, disks[i]).len() ==> row_safe(
                    devs[#[trigger] kids_of(devs, disks[i])[j] as int],
                    ms,
                )
        }
}

/// A device table whose labels and mount points are all ASCII can always be
/// printed: every row of it can be built.
pub proof fn lemma_ascii_table_safe(devs: Seq<DeviceRecord>, ms: Seq<(Seq<char>, Seq<char>)>)
    requires
        devs.len() <= usize::MAX,
        forall|i: int| 0 <= i < devs.len() ==> (#[trigger] devs[i].label matches Some(l)
            ==> is_ascii_chars(l@)),
        forall|k: int| 0 <= k < ms.len() ==> is_ascii_chars(#[trigger] ms[k].1),
    ensures
        scan_safe(devs, ms),
{
    let disks = disk_indices(devs);
    lemma_table_devices(devs, seq![]);
    assert forall|i: int| 0 <= i < disks.len() implies {
        &&& row_safe(devs[#[trigger] disks[i] as int], ms)
        &&& forall|j: int|
            0 <= j < kids_of(devs, disks[i]).len() ==> row_safe(
                devs[#[trigger] kids_of(devs, disks[i])[j] as int],
                ms,
            )
    } by {
        assert(disks[i] < devs.len());
        lemma_ascii_row_safe(devs[disks[i] as int], ms);
        lemma_table_devices(devs, devs[disks[i] as int].name@);
        assert forall|j: int| 0 <= j < kids_of(devs, disks[i]).len() implies row_safe(
            devs[#[trigger] kids_of(devs, disks[i])[j] as int],
            ms,
        ) by {
            let c = kids_of(devs, disks[i])[j];
            assert(c == children_in(devs, part_indices(devs), devs[disks[i] as int].name@)[j]);
            assert(c < devs.len());
            lemma_ascii_row_safe(devs[c as int], ms);
        }
    }
}

/// The table lists no loop device: every disk it lists is a disk whose name
/// does not begin with `loop`, every partition it lists is a partition whose name
/// does not, and the partitions under a disk are those whose parent is that disk.
pub proof fn lemma_table_devices(devs: Seq<DeviceRecord>, name: Seq<char>)
    requires
        devs.len() <= usize::MAX,
    ensures
        forall|i: int|
            0 <= i < disk_indices(devs).len() ==> {
                &&& #[trigger] disk_indices(devs)[i] < devs.len()
                &&& devs[disk_indices(devs)[i] as int].partuuid is None
                &&& !is_loop(devs[disk_indices(devs)[i] as int])
            },
        forall|i: int|
            0 <= i < part_indices(devs).len() ==> {
                &&& #[trigger] part_indices(devs)[i] < devs.len()
                &&& devs[part_indices(devs)[i] as int].partuuid is Some
                &&& !is_loop(devs[part_indices(devs)[i] as int])
            },
        forall|i: int|
            0 <= i < children_in(devs, part_indices(devs), name).len() ==> {
                let c = #[trigger] children_in(devs, part_indices(devs), name)[i];
                &&& c < devs.len()
                &&& devs[c as int].partuuid is Some
                &&& !is_loop(devs[c as int])
                &&& parent_is(devs[c as int], name)
            },
    decreases devs.len(),
{
    if devs.len() > 0 {
        let t = devs.drop_last();
        lemma_table_devices(t, name);
        assert forall|i: int| 0 <= i < disk_indices(devs).len() implies {
            &&& #[trigger] disk_indices(devs)[i] < devs.len()
            &&& devs[disk_indices(devs)[i] as int].partuuid is None
            &&& !is_loop(devs[disk_indices(devs)[i] as int])
        } by {
            if i < disk_indices(t).len() {
                assert(disk_indices(devs)[i] == disk_indices(t)[i]);
                assert(devs[disk_indices(t)[i] as int] == t[disk_indices(t)[i] as int]);
            } else {
                assert(disk_indices(devs)[i] == devs.len() - 1);
                assert(devs[devs.len() - 1] == devs.last());
            }
        }
        assert forall|i: int| 0 <= i < part_indices(devs).len() implies {
            &&& #[trigger] part_indices(devs)[i] < devs.len()
            &&& devs[part_indices(devs)[i] as int].partuuid is Some
            &&& !is_loop(devs[part_indices(devs)[i] as int])
        } by {
            if i < part_indices(t).len() {
                assert(part_indices(devs)[i] == part_indices(t)[i]);
                assert(devs[part_indices(t)[i] as int] == t[part_indices(t)[i] as int]);
            } else {
                assert(part_indices(devs)[i] == devs.len() - 1);
                assert(devs[devs.len() - 1] == devs.last());
            }
        }
    }
    lemma_children_kept(devs, part_indices(devs), name);
}

proof fn lemma_children_kept(devs: Seq<DeviceRecord>, parts: Seq<usize>, name: Seq<char>)
    requires
        forall|i: int|
            0 <= i < parts.len() ==> {
                &&& #[trigger] parts[i] < devs.len()
                &&& devs[parts[i] as int].partuuid is Some
                &&& !is_loop(devs[parts[i] as int])
            },
    ensures
        forall|i: int|
            0 <= i < children_in(devs, parts, name).len() ==> {
                let c = #[trigger] children_in(devs, parts, name)[i];
                &&& c < devs.len()
                &&& devs[c as int].partuuid is Some
                &&& !is_loop(devs[c as int])
                &&& parent_is(devs[c as int], name)
            },
    decreases parts.len(),
{
    if parts.len() > 0 {
        let t = parts.drop_last();
        assert forall|i: int| 0 <= i < t.len() implies {
            &&& #[trigger] t[i] < devs.len()
            &&& devs[t[i] as int].partuuid is Some
            &&& !is_loop(devs[t[i] as int])
        } by {
            assert(t[i] == parts[i]);
        }
        lemma_children_kept(devs, t, name);
        let c = children_in(devs, parts, name);
        assert forall|i: int| 0 <= i < c.len() implies {
            let x = #[trigger] c[i];
            &&& x < devs.len()
            &&& devs[x as int].partuuid is Some
            &&& !is_loop(devs[x as int])
            &&& parent_is(devs[x as int], name)
        } by {
            if i < children_in(devs, t, name).len() {
                assert(c[i] == children_in(devs, t, name)[i]);
            } else {
                assert(c[i] == parts.last());
            }
        }
    }
}

proof fn lemma_disk_indices_bound(devs: Seq<DeviceRecord>)
    ensures
        forall|i: int| 0 <= i < disk_indices(devs).len() ==> #[trigger] disk_indices(devs)[i] < devs.len(),
        forall|i: int| 0 <= i < part_indices(devs).len() ==> #[trigger] part_indices(devs)[i] < devs.len(),
    decreases devs.len(),
{
    if devs.len() > 0 {
        let t = devs.drop_last();
        lemma_disk_indices_bound(t);
        assert forall|i: int| 0 <= i < disk_indices(devs).len() implies #[trigger] disk_indices(devs)[i] < devs.len() by {
            if i < disk_indices(t).len() {
                assert(disk_indices(devs)[i] == disk_indices(t)[i]);
            }
        }
        assert forall|i: int| 0 <= i < part_indices(devs).len() implies #[trigger] part_indices(devs)[i] < devs.len() by {
            if i < part_indices(t).len() {
                assert(part_indices(devs)[i] == part_indices(t)[i]);
            }
        }
    }
}

proof fn lemma_children_bound(devs: Seq<DeviceRecord>, parts: Seq<usize>, name: Seq<char>)
    requires
        forall|i: int| 0 <= i < parts.len() ==> #[trigger] parts[i] < devs.len(),
    ensures
        forall|i: int| 0 <= i < children_in(devs, parts, name).len() ==> #[trigger] children_in(devs, parts, name)[i] < devs.len(),
    decreases parts.len(),
{
    if parts.len() > 0 {
        let t = parts.drop_last();
        assert forall|i: int| 0 <= i < t.len() implies #[trigger] t[i] < devs.len() by {
            assert(t[i] == parts[i]);
        }
        lemma_children_bound(devs, t, name);
        let c = children_in(devs, parts, name);
        assert forall|i: int| 0 <= i < c.len() implies #[trigger] c[i] < devs.len() by {
            if i < children_in(devs, t, name).len() {
                assert(c[i] == children_in(devs, t, name)[i]);
            } else {
                assert(c[i] == parts.last());
            }
        }
    }
}

fn select_devices(devs: &Vec<DeviceRecord>, parts: bool) -> (r: Vec<usize>)
    ensures
        !parts ==> r@ == disk_indices(devs@),
        parts ==> r@ == part_indices(devs@),
{
    let looped = chars_of("loop");
    let mut r: Vec<usize> = Vec::new();
    let mut i: usize = 0;
    while i < devs.len()
        invariant
            i <= devs.len(),
            looped@ == "loop"@,
            !parts ==> r@ == disk_indices(devs@.take(i as int)),
            parts ==> r@ == part_indices(devs@.take(i as int)),
        decreases devs.len() - i,
    {
        let d = &devs[i];
        assert(devs@.take(i + 1).drop_last() =~= devs@.take(i as int));
        let nv = chars_of(d.name.as_str());
        assert(nv@.skip(0) =~= nv@);
        let is_looped = crate::text::prefix_at(&nv, 0, &looped);
        if d.is_part() == parts && !is_looped {
            r.push(i);
        }
        i = i + 1;
    }
    assert(devs@.take(devs.len() as int) =~= devs@);
    r
}

fn children_of(devs: &Vec<DeviceRecord>, parts: &Vec<usize>, name: &String) -> (r: Vec<usize>)
    requires
        forall|i: int| 0 <= i < parts@.len() ==> #[trigger] parts@[i] < devs@.len(),
    ensures
        r@ == children_in(devs@, parts@, name@),
{
    let nv = chars_of(name.as_str());
    let mut r: Vec<usize> = Vec::new();
    let mut i: usize = 0;
    while i < parts.len()
        invariant
            i <= parts.len(),
            nv@ == name@,
            forall|i: int| 0 <= i < parts@.len() ==> #[trigger] parts@[i] < devs@.len(),
            r@ == children_in(devs@, parts@.take(i as int), name@),
        decreases parts.len() - i,
    {
        assert(parts@.take(i + 1).drop_last() =~= parts@.take(i as int));
        let d = &devs[parts[i]];
        let matches_parent = match &d.parent {
            Some(p) => chars_equal(&chars_of(p.as_str()), &nv),
            None => false,
        };
        if matches_parent {
            r.push(parts[i]);
        }
        i = i + 1;
    }
    assert(parts@.take(parts.len() as int) =~= parts@);
    r
}

fn name_key_list(devs: &Vec<DeviceRecord>, idx: &Vec<usize>) -> (r: Vec<(bool, Vec<char>)>)
    requires
        forall|i: int| 0 <= i < idx@.len() ==> #[trigger] idx@[i] < devs@.len(),
    ensures
        key_views(r@) == name_keys(devs@, idx@),
{
    let mut r: Vec<(bool, Vec<char>)> = Vec::new();
    let mut i: usize = 0;
    while i < idx.len()
        invariant
            i <= idx.len(),
            r@.len() == i,
            forall|i: int| 0 <= i < idx@.len() ==> #[trigger] idx@[i] < devs@.len(),
            key_views(r@) == name_keys(devs@, idx@).take(i as int),
        decreases idx.len() - i,
    {
        let nv = chars_of(devs[idx[i]].name.as_str());
        r.push((false, nv));
        i = i + 1;
        assert(key_views(r@) =~= name_keys(devs@, idx@).take(i as int));
    }
    assert(name_keys(devs@, idx@).take(idx.len() as int) =~= name_keys(devs@, idx@));
    r
}

/// Whether every row of the table can be built (see [`scan_safe`]); the table
/// cannot be printed otherwise, since slicing a label or a mount point inside a
/// character panics.
pub fn scan_is_safe(devs: &Vec<DeviceRecord>, mounts: &Vec<(String, String)>) -> (r: bool)
    ensures
        r == scan_safe(devs@, pair_views(mounts@)),
{
    let ghost ms = pair_views(mounts@);
    let disks = select_devices(devs, false);
    let parts = select_devices(devs, true);
    proof {
        lemma_disk_indices_bound(devs@);
    }
    let mut i: usize = 0;
    while i < disks.len()
        invariant
            ms == pair_views(mounts@),
            disks@ == disk_indices(devs@),
            parts@ == part_indices(devs@),
            forall|i: int| 0 <= i < disks@.len() ==> #[trigger] disks@[i] < devs@.len(),
            forall|i: int| 0 <= i < parts@.len() ==> #[trigger] parts@[i] < devs@.len(),
            i <= disks.len(),
            forall|k: int|
                0 <= k < i ==> {
                    &&& row_safe(devs@[#[trigger] disks@[k] as int], ms)
                    &&& forall|j: int|
                        0 <= j < kids_of(devs@, disks@[k]).len() ==> row_safe(
                            devs@[#[trigger] kids_of(devs@, disks@[k])[j] as int],
                            ms,
                        )
                },
        decreases disks.len() - i,
    {
        let d = disks[i];
        if !row_is_safe(&devs[d], mounts) {
            return false;
        }
        let kids = children_of(devs, &parts, &devs[d].name);
        proof {
            lemma_children_bound(devs@, parts@, devs@[d as int].name@);
        }
        let mut j: usize = 0;
        while j < kids.len()
            invariant
                ms == pair_views(mounts@),
                kids@ == kids_of(devs@, d),
                d == disks@[i as int],
                i < disks@.len(),
                disks@ == disk_indices(devs@),
                forall|i: int| 0 <= i < kids@.len() ==> #[trigger] kids@[i] < devs@.len(),
                j <= kids.len(),
                forall|m: int| 0 <= m < j ==> row_safe(devs@[#[trigger] kids@[m] as int], ms),
            decreases kids.len() - j,
        {
            if !row_is_safe(&devs[kids[j]], mounts) {
                assert(!row_safe(devs@[kids_of(devs@, disks@[i as int])[j as int] as int], ms));
                return false;
            }
            j = j + 1;
        }
        i = i + 1;
    }
    true
}


/// The table that `scan` prints, line by line (see [`scan_lines`]): the
/// devices come in as the system listed them, with the mount table as
/// (device, mount point) pairs in the order the system lists them.
pub fn scan_report(devs: &Vec<DeviceRecord>, mounts: &Vec<(String, String)>) -> (r: Vec<String>)
    requires
        scan_safe(devs@, pair_views(mounts@)),
    ensures
        exists|p: Seq<usize>, qs: Seq<Seq<usize>>|
            scan_orders(devs@, p, qs) && string_views(r@) == scan_lines(devs@, pair_views(mounts@), p, qs),
{
    let ghost ms = pair_views(mounts@);
    let disks = select_devices(devs, false);
    let parts = select_devices(devs, true);
    proof {
        lemma_disk_indices_bound(devs@);
    }
    let dkeys = name_key_list(devs, &disks);
    let p = stable_order(&dkeys);
    let mut lines = header();
    let ghost mut qs: Seq<Seq<usize>> = seq![];
    let mut k: usize = 0;
    assert(scan_blocks(devs@, ms, p@.take(0), qs) =~= Seq::<Seq<Seq<char>>>::empty());
    assert(string_views(lines@) =~= header_lines() + scan_blocks(devs@, ms, p@.take(0), qs).flatten());
    while k < p.len()
        invariant
            ms == pair_views(mounts@),
            scan_safe(devs@, ms),
            disks@ == disk_indices(devs@),
            parts@ == part_indices(devs@),
            forall|i: int| 0 <= i < disks@.len() ==> #[trigger] disks@[i] < devs@.len(),
            forall|i: int| 0 <= i < parts@.len() ==> #[trigger] parts@[i] < devs@.len(),
            is_stable_order(p@, name_keys(devs@, disks@)),
            k <= p.len(),
            qs.len() == k,
            forall|m: int|
                0 <= m < k ==> is_stable_order(
                    #[trigger] qs[m],
                    name_keys(devs@, kids_of(devs@, disks@[p@[m] as int])),
                ),
            string_views(lines@) == header_lines() + scan_blocks(devs@, ms, p@.take(k as int), qs).flatten(),
        decreases p.len() - k,
    {
        let d = disks[p[k]];
        let ghost before = string_views(lines@);
        lines.push(device_row(&devs[d], "", false, mounts));
        let kids = children_of(devs, &parts, &devs[d].name);
        proof {
            lemma_children_bound(devs@, parts@, devs@[d as int].name@);
        }
        let ckeys = name_key_list(devs, &kids);
        let q = stable_order(&ckeys);
        let m = q.len();
        let mut j: usize = 0;
        let ghost head = seq![row_spec(devs@[d as int], ""@, false, ms)];
        assert(string_views(lines@) =~= before + head);
        while j < m
            invariant
                ms == pair_views(mounts@),
                scan_safe(devs@, ms),
                kids@ == kids_of(devs@, d),
                d == disks@[p@[k as int] as int],
                k < p@.len(),
                p@[k as int] < disks@.len(),
                disks@ == disk_indices(devs@),
                forall|i: int| 0 <= i < kids@.len() ==> #[trigger] kids@[i] < devs@.len(),
                is_stable_order(q@, name_keys(devs@, kids@)),
                m == q@.len(),
                j <= m,
                string_views(lines@) == before + head + Seq::new(
                    j as nat,
                    |jj: int| row_spec(devs@[kids@[q@[jj] as int] as int], branch(jj, m as int), true, ms),
                ),
            decreases m - j,
        {
            let prefix = if j == m - 1 {
                "└─"
            } else {
                "├─"
            };
            let idx = kids[q[j]];
            assert(row_safe(devs@[kids_of(devs@, disks@[p@[k as int] as int])[q@[j as int] as int] as int], ms));
            let ghost prev = string_views(lines@);
            let ghost jo = j as int;
            assert(prefix@ == branch(jo, m as int));
            let row = device_row(&devs[idx], prefix, true, mounts);
            lines.push(row);
            assert(string_views(lines@) =~= prev.push(
                row_spec(devs@[kids@[q@[jo] as int] as int], branch(jo, m as int), true, ms),
            ));
            j = j + 1;
            assert(string_views(lines@) =~= before + head + Seq::new(
                j as nat,
                |jj: int| row_spec(devs@[kids@[q@[jj] as int] as int], branch(jj, m as int), true, ms),
            ));
        }
        proof {
            let blocks_before = scan_blocks(devs@, ms, p@.take(k as int), qs);
            qs = qs.push(q@);
            let blocks_after = scan_blocks(devs@, ms, p@.take(k + 1), qs);
            assert(blocks_after =~= blocks_before.push(disk_block(devs@, ms, d, q@)));
            blocks_before.lemma_flatten_push(disk_block(devs@, ms, d, q@));
            assert(disk_block(devs@, ms, d, q@) =~= head + Seq::new(
                m as nat,
                |jj: int| row_spec(devs@[kids@[q@[jj] as int] as int], branch(jj, m as int), true, ms),
            ));
        }
        k = k + 1;
    }
    assert(p@.take(p.len() as int) =~= p@);
    assert(scan_orders(devs@, p@, qs));
    assert(string_views(lines@) == scan_lines(devs@, ms, p@, qs));
    lines
}

} // verus!
