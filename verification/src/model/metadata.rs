use vstd::prelude::*;
use vstd::string::StringExecFns;

use crate::model::calendar::{lemma_civil_date_is_valid, month_length};
use crate::model::node::NodeType;
use crate::strings::{
    binary_size_text, decimal, decimal_text, format_size_binary, push_char, push_decimal, texts,
};

verus! {

/// Year, month and day of the day `days` after 1970-01-01 in the proleptic Gregorian
/// calendar, by Howard Hinnant's civil-from-days computation: `doe` is the day within
/// the 400-year era, `yoe` the year within it, `doy` the day within a year that starts
/// on March 1st, `mp` the month counted from March.
pub open spec fn civil_from_days(days: int) -> (int, int, int) {
    let z = days + 719468;
    let era = z / 146097;
    let doe = z - era * 146097;
    let yoe = (doe - doe / 1460 + doe / 36524 - doe / 146096) / 365;
    let y = yoe + era * 400;
    let doy = doe - (365 * yoe + yoe / 4 - yoe / 100);
    let mp = (5 * doy + 2) / 153;
    let d = doy - (153 * mp + 2) / 5 + 1;
    let m = if mp < 10 {
        mp + 3
    } else {
        mp - 9
    };
    (if m <= 2 {
        y + 1
    } else {
        y
    }, m, d)
}

proof fn lemma_year_of_era(doe: u32)
    by (bit_vector)
    requires
        doe < 146097,
    ensures
        (doe - doe / 1460 + doe / 36524 - doe / 146096) / 365 < 400,
        365 * ((doe - doe / 1460 + doe / 36524 - doe / 146096) / 365) + ((doe - doe / 1460 + doe
            / 36524 - doe / 146096) / 365) / 4 - ((doe - doe / 1460 + doe / 36524 - doe / 146096)
            / 365) / 100 <= doe,
        doe - (365 * ((doe - doe / 1460 + doe / 36524 - doe / 146096) / 365) + ((doe - doe / 1460
            + doe / 36524 - doe / 146096) / 365) / 4 - ((doe - doe / 1460 + doe / 36524 - doe
            / 146096) / 365) / 100) <= 365,
{
}

proof fn lemma_month_of_year(doy: u32)
    by (bit_vector)
    requires
        doy <= 365,
    ensures
        (5 * doy + 2) / 153 <= 11,
        (153 * ((5 * doy + 2) / 153) + 2) / 5 <= doy,
        doy - (153 * ((5 * doy + 2) / 153) + 2) / 5 + 1 <= 31,
{
}

/// Convert days since Unix epoch to (year, month, day).
pub fn days_to_ymd(days: u64) -> (r: (u64, u64, u64))
    requires
        days + 719468 <= u64::MAX,
    ensures
        (r.0 as int, r.1 as int, r.2 as int) == civil_from_days(days as int),
        1 <= r.1 <= 12,
        1 <= r.2 <= month_length(r.0 as int, r.1 as int),
{
    proof {
        lemma_civil_date_is_valid(days as int);
    }
    // Civil calendar algorithm (modified from Howard Hinnant)
    let z = days + 719468;
    let era = z / 146097;
    let doe = z - era * 146097;
    proof {
        lemma_year_of_era(doe as u32);
    }
    let yoe = (doe - doe / 1460 + doe / 36524 - doe / 146096) / 365;
    let y = yoe + era * 400;
    let doy = doe - (365 * yoe + yoe / 4 - yoe / 100);
    proof {
        lemma_month_of_year(doy as u32);
    }
    let mp = (5 * doy + 2) / 153;
    let d = doy - (153 * mp + 2) / 5 + 1;
    let m = if mp < 10 {
        mp + 3
    } else {
        mp - 9
    };
    let y = if m <= 2 {
        y + 1
    } else {
        y
    };
    (y, m, d)
}

/// `s` padded on the left with zeros to at least `width` characters.
pub open spec fn zero_padded(s: Seq<char>, width: nat) -> Seq<char> {
    if s.len() < width {
        Seq::new((width - s.len()) as nat, |i: int| '0') + s
    } else {
        s
    }
}

/// Appends `n` in decimal, padded on the left with zeros to `width` digits.
fn push_padded(out: &mut String, n: u64, width: usize)
    ensures
        final(out)@ == old(out)@ + zero_padded(decimal(n as nat), width as nat),
{
    let digits = decimal_text(n);
    let len = crate::strings::chars_of(digits.as_str()).len();
    let mut i: usize = len;
    let ghost start = out@;
    while i < width
        invariant
            len <= i <= width || (i == len && len >= width),
            len == digits@.len(),
            out@ == start + Seq::new((i - len) as nat, |k: int| '0'),
        decreases width - i,
    {
        push_char(out, '0');
        proof {
            assert(out@ =~= start + Seq::new((i + 1 - len) as nat, |k: int| '0'));
        }
        i = i + 1;
    }
    out.append(digits.as_str());
    proof {
        if len < width {
            assert(final(out)@ =~= start + zero_padded(decimal(n as nat), width as nat));
        } else {
            assert(final(out)@ =~= start + zero_padded(decimal(n as nat), width as nat));
        }
    }
}

/// Seconds in a day, hour and minute; nanoseconds in a second.
pub open spec fn nanos_per_second() -> int {
    1_000_000_000
}

/// The UTC text for a point in time given in nanoseconds relative to the Unix epoch:
/// "unknown" before the epoch, "far future" past the representable calendar, else
/// "YYYY-MM-DD HH:MM UTC".
pub open spec fn time_text(nanos: int) -> Seq<char> {
    if nanos < 0 {
        "unknown"@
    } else {
        let secs = nanos / nanos_per_second();
        let days = secs / 86400;
        let remaining = secs % 86400;
        let hours = remaining / 3600;
        let minutes = (remaining % 3600) / 60;
        if days > i64::MAX / 2 {
            "far future"@
        } else {
            let (y, m, d) = civil_from_days(days);
            zero_padded(decimal(y as nat), 4) + "-"@ + zero_padded(decimal(m as nat), 2) + "-"@
                + zero_padded(decimal(d as nat), 2) + " "@ + zero_padded(decimal(hours as nat), 2)
                + ":"@ + zero_padded(decimal(minutes as nat), 2) + " UTC"@
        }
    }
}

/// Format a point in time (nanoseconds relative to the Unix epoch) as UTC.
pub fn format_time(nanos: i128) -> (r: String)
    ensures
        r@ == time_text(nanos as int),
{
    if nanos < 0 {
        return String::from_str("unknown");
    }
    let secs: i128 = nanos / 1_000_000_000;
    let days: i128 = secs / 86400;
    let remaining: i128 = secs % 86400;
    let hours: i128 = remaining / 3600;
    let minutes: i128 = (remaining % 3600) / 60;
    // Bounds check to prevent overflow in days_to_ymd
    // The algorithm supports dates up to year ~10^9 safely
    if days > (i64::MAX / 2) as i128 {
        return String::from_str("far future");
    }
    let (year, month, day) = days_to_ymd(days as u64);
    let mut s = String::new();
    push_padded(&mut s, year, 4);
    s.append("-");
    push_padded(&mut s, month, 2);
    s.append("-");
    push_padded(&mut s, day, 2);
    s.append(" ");
    push_padded(&mut s, hours as u64, 2);
    s.append(":");
    push_padded(&mut s, minutes as u64, 2);
    s.append(" UTC");
    proof {
        assert(s@ =~= time_text(nanos as int));
    }
    s
}

/// The file-type letter of an `ls -l` style mode string.
pub open spec fn file_type_char(mode: u32) -> char {
    let t = mode & 0o170000;
    if t == 0o140000 {
        's'
    } else if t == 0o120000 {
        'l'
    } else if t == 0o100000 {
        '-'
    } else if t == 0o060000 {
        'b'
    } else if t == 0o040000 {
        'd'
    } else if t == 0o020000 {
        'c'
    } else if t == 0o010000 {
        'p'
    } else {
        '?'
    }
}

/// One permission letter: `present` when `bit` is set in `mode`, else `absent`.
pub open spec fn perm_char(mode: u32, bit: u32, present: char, absent: char) -> char {
    if mode & bit != 0 {
        present
    } else {
        absent
    }
}

/// The execute letter of a class whose special bit (setuid, setgid or sticky) is
/// `special`: `lower` ('s' or 't') or `upper` ('S' or 'T') when it is set.
pub open spec fn exec_char(mode: u32, bit: u32, special: u32, lower: char, upper: char) -> char {
    if mode & special != 0 {
        perm_char(mode, bit, lower, upper)
    } else {
        perm_char(mode, bit, 'x', '-')
    }
}

/// The `ls -l` style text of a Unix mode, such as "-rwxr-xr-x".
pub open spec fn permissions_text(mode: u32) -> Seq<char> {
    seq![
        file_type_char(mode),
        perm_char(mode, 0o400, 'r', '-'),
        perm_char(mode, 0o200, 'w', '-'),
        exec_char(mode, 0o100, 0o4000, 's', 'S'),
        perm_char(mode, 0o040, 'r', '-'),
        perm_char(mode, 0o020, 'w', '-'),
        exec_char(mode, 0o010, 0o2000, 's', 'S'),
        perm_char(mode, 0o004, 'r', '-'),
        perm_char(mode, 0o002, 'w', '-'),
        exec_char(mode, 0o001, 0o1000, 't', 'T'),
    ]
}

fn push_perm(s: &mut String, mode: u32, bit: u32, present: char, absent: char)
    ensures
        final(s)@ == old(s)@.push(perm_char(mode, bit, present, absent)),
{
    push_char(s, if mode & bit != 0 { present } else { absent });
}

/// Format a Unix mode the way `ls -l` shows it.
pub fn format_permissions(mode: u32) -> (r: String)
    ensures
        r@ == permissions_text(mode),
{
    let file_type = match mode & 0o170000 {
        0o140000 => 's',  // socket
        0o120000 => 'l',  // symlink
        0o100000 => '-',  // regular file
        0o060000 => 'b',  // block device
        0o040000 => 'd',  // directory
        0o020000 => 'c',  // char device
        0o010000 => 'p',  // fifo
        _ => '?',
    };
    let mut s = String::new();
    push_char(&mut s, file_type);
    push_perm(&mut s, mode, 0o400, 'r', '-');
    push_perm(&mut s, mode, 0o200, 'w', '-');
    if mode & 0o4000 != 0 {
        push_perm(&mut s, mode, 0o100, 's', 'S');
    } else {
        push_perm(&mut s, mode, 0o100, 'x', '-');
    }
    push_perm(&mut s, mode, 0o040, 'r', '-');
    push_perm(&mut s, mode, 0o020, 'w', '-');
    if mode & 0o2000 != 0 {
        push_perm(&mut s, mode, 0o010, 's', 'S');
    } else {
        push_perm(&mut s, mode, 0o010, 'x', '-');
    }
    push_perm(&mut s, mode, 0o004, 'r', '-');
    push_perm(&mut s, mode, 0o002, 'w', '-');
    if mode & 0o1000 != 0 {
        push_perm(&mut s, mode, 0o001, 't', 'T');
    } else {
        push_perm(&mut s, mode, 0o001, 'x', '-');
    }
    proof {
        assert(s@ =~= permissions_text(mode));
    }
    s
}

/// Rich metadata loaded on demand for the file info popup. Times are nanoseconds
/// relative to the Unix epoch.
pub struct FileMetadata {
    pub size: u64,
    pub permissions: String,
    pub uid: u32,
    pub gid: u32,
    pub modified: Option<i128>,
    pub created: Option<i128>,
    pub inode: u64,
    pub hard_links: u64,
    pub mime_type: String,
}

/// The lines of the file info popup for an entry named `name`.
pub open spec fn metadata_lines(m: FileMetadata, name: Seq<char>) -> Seq<Seq<char>> {
    let head = seq![
        "  Name: "@ + name,
        "  Size: "@ + binary_size_text(m.size),
        "  Permissions: "@ + m.permissions@,
        "  Owner: "@ + decimal(m.uid as nat) + ":"@ + decimal(m.gid as nat),
    ];
    let with_modified = match m.modified {
        Some(t) => head.push("  Modified: "@ + time_text(t as int)),
        None => head,
    };
    let with_created = match m.created {
        Some(t) => with_modified.push("  Created: "@ + time_text(t as int)),
        None => with_modified,
    };
    with_created + seq![
        "  Inode: "@ + decimal(m.inode as nat),
        "  Hard links: "@ + decimal(m.hard_links as nat),
        "  MIME: "@ + m.mime_type@,
    ]
}

/// `prefix` followed by `rest`.
fn labelled(prefix: &str, rest: &str) -> (s: String)
    ensures
        s@ == prefix@ + rest@,
{
    let mut s = String::from_str(prefix);
    s.append(rest);
    s
}

impl FileMetadata {
    /// Format metadata as display lines for the info popup.
    pub fn to_lines(&self, name: &str) -> (lines: Vec<String>)
        ensures
            texts(lines@) == metadata_lines(*self, name@),
    {
        let mut lines: Vec<String> = Vec::new();
        lines.push(labelled("  Name: ", name));
        let size = format_size_binary(self.size);
        lines.push(labelled("  Size: ", size.as_str()));
        lines.push(labelled("  Permissions: ", self.permissions.as_str()));
        let mut owner = String::from_str("  Owner: ");
        push_decimal(&mut owner, self.uid as u64);
        owner.append(":");
        push_decimal(&mut owner, self.gid as u64);
        lines.push(owner);
        let ghost head = texts(lines@);
        proof {
            assert(head =~= seq![
                "  Name: "@ + name@,
                "  Size: "@ + binary_size_text(self.size),
                "  Permissions: "@ + self.permissions@,
                "  Owner: "@ + decimal(self.uid as nat) + ":"@ + decimal(self.gid as nat),
            ]);
        }
        if let Some(modified) = self.modified {
            let t = format_time(modified);
            lines.push(labelled("  Modified: ", t.as_str()));
        }
        let ghost with_modified = texts(lines@);
        proof {
            match self.modified {
                Some(t) => {
                    assert(with_modified =~= head.push("  Modified: "@ + time_text(t as int)));
                },
                None => {},
            }
        }
        if let Some(created) = self.created {
            let t = format_time(created);
            lines.push(labelled("  Created: ", t.as_str()));
        }
        let ghost with_created = texts(lines@);
        proof {
            match self.created {
                Some(t) => {
                    assert(with_created =~= with_modified.push("  Created: "@ + time_text(t as int)));
                },
                None => {},
            }
        }
        let mut inode = String::from_str("  Inode: ");
        push_decimal(&mut inode, self.inode);
        lines.push(inode);
        let mut links = String::from_str("  Hard links: ");
        push_decimal(&mut links, self.hard_links);
        lines.push(links);
        lines.push(labelled("  MIME: ", self.mime_type.as_str()));
        proof {
            assert(texts(lines@) =~= metadata_lines(*self, name@));
        }
        lines
    }
}

/// The MIME type shown for an entry: directories and symlinks by their kind, files by
/// what content sniffing detected, else "application/octet-stream".
pub open spec fn mime_type_spec(kind: NodeType, detected: Option<Seq<char>>) -> Seq<char> {
    match kind {
        NodeType::Dir => "inode/directory"@,
        NodeType::Symlink => "inode/symlink"@,
        NodeType::File => match detected {
            Some(m) => m,
            None => "application/octet-stream"@,
        },
    }
}

/// The MIME type shown for an entry of the given kind, given what content sniffing
/// detected for a file.
pub fn mime_type_for(kind: NodeType, detected: Option<String>) -> (r: String)
    ensures
        r@ == mime_type_spec(
            kind,
            match detected {
                Some(d) => Some(d@),
                None => None,
            },
        ),
{
    match kind {
        NodeType::Dir => String::from_str("inode/directory"),
        NodeType::Symlink => String::from_str("inode/symlink"),
        NodeType::File => match detected {
            Some(m) => m,
            None => String::from_str("application/octet-stream"),
        },
    }
}

/// Each of the nine permission letters of `format_permissions` is decided by its own
/// POSIX bit: read, write and execute of owner (0o400, 0o200, 0o100), group (0o040,
/// 0o020, 0o010) and others (0o004, 0o002, 0o001), with '-' when the bit is clear; the
/// setuid, setgid and sticky bits (0o4000, 0o2000, 0o1000) turn the execute letter into
/// 's' or 't' (upper case when the execute bit is clear). The first letter is 'd' exactly
/// for a directory and '-' exactly for a regular file.
pub proof fn lemma_permission_letters(mode: u32)
    ensures
        permissions_text(mode).len() == 10,
        (permissions_text(mode)[0] == 'd') == (mode & 0o170000 == 0o040000),
        (permissions_text(mode)[0] == '-') == (mode & 0o170000 == 0o100000),
        permissions_text(mode)[1] == (if mode & 0o400 != 0 { 'r' } else { '-' }),
        permissions_text(mode)[2] == (if mode & 0o200 != 0 { 'w' } else { '-' }),
        permissions_text(mode)[4] == (if mode & 0o040 != 0 { 'r' } else { '-' }),
        permissions_text(mode)[5] == (if mode & 0o020 != 0 { 'w' } else { '-' }),
        permissions_text(mode)[7] == (if mode & 0o004 != 0 { 'r' } else { '-' }),
        permissions_text(mode)[8] == (if mode & 0o002 != 0 { 'w' } else { '-' }),
        permissions_text(mode)[3] == (if mode & 0o4000 != 0 {
            if mode & 0o100 != 0 { 's' } else { 'S' }
        } else {
            if mode & 0o100 != 0 { 'x' } else { '-' }
        }),
        permissions_text(mode)[6] == (if mode & 0o2000 != 0 {
            if mode & 0o010 != 0 { 's' } else { 'S' }
        } else {
            if mode & 0o010 != 0 { 'x' } else { '-' }
        }),
        permissions_text(mode)[9] == (if mode & 0o1000 != 0 {
            if mode & 0o001 != 0 { 't' } else { 'T' }
        } else {
            if mode & 0o001 != 0 { 'x' } else { '-' }
        }),
{
}

} // verus!
