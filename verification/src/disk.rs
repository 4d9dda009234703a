//! The disk-capacity parser: reads the platform query tool's
//! `key=value` lines for free space, total size and volume label,
//! tolerating missing or unparsable fields.

use vstd::prelude::*;

use crate::text::{
    is_unicode_space, parse_u64_or_zero, parsed_u64_or_zero, scan_to, scan_to_exec, split_lines,
    split_lines_spec, extract_range, unicode_space_char,
};

verus! {

/// Free and total space of the primary volume, with its label.
pub struct DiskInfo {
    pub free: u64,
    pub total: u64,
    pub label: String,
}

/// First non-whitespace index at or after `i`, by the Unicode class
/// `str::trim` uses.
pub open spec fn ltrim_idx(s: Seq<char>, i: int) -> int
    decreases s.len() - i,
{
    if 0 <= i < s.len() && is_unicode_space(s[i]) {
        ltrim_idx(s, i + 1)
    } else {
        i
    }
}

/// Last non-whitespace bound at or below `j`.
pub open spec fn rtrim_idx(s: Seq<char>, j: int) -> int
    decreases j,
{
    if 0 < j <= s.len() && is_unicode_space(s[j - 1]) {
        rtrim_idx(s, j - 1)
    } else {
        j
    }
}

/// The string with surrounding whitespace removed.
pub open spec fn trimmed(s: Seq<char>) -> Seq<char> {
    let a = ltrim_idx(s, 0);
    let b = rtrim_idx(s, s.len() as int);
    if a <= b {
        s.subrange(a, b)
    } else {
        Seq::empty()
    }
}

/// The folded reading state: counters start at zero, the label at its
/// generic default.
pub struct DiskRaw {
    pub free: u64,
    pub total: u64,
    pub label: Seq<char>,
}

/// One line's effect: only a line with exactly one `=` counts; its
/// trimmed key selects the field, an unparsable number becomes zero,
/// and an empty volume name is ignored.
pub open spec fn disk_step(st: DiskRaw, line: Seq<char>) -> DiskRaw {
    let p = scan_to(line, 0, '=');
    if p < line.len() && scan_to(line, p + 1, '=') == line.len() {
        let key = trimmed(line.subrange(0, p));
        let val = trimmed(line.subrange(p + 1, line.len() as int));
        if key == "FreeSpace"@ {
            DiskRaw { free: parsed_u64_or_zero(val), total: st.total, label: st.label }
        } else if key == "Size"@ {
            DiskRaw { free: st.free, total: parsed_u64_or_zero(val), label: st.label }
        } else if key == "VolumeName"@ {
            if val.len() > 0 {
                DiskRaw { free: st.free, total: st.total, label: val }
            } else {
                st
            }
        } else {
            st
        }
    } else {
        st
    }
}

/// The reading after all lines, later lines overriding earlier ones.
pub open spec fn disk_fold(lines: Seq<Seq<char>>) -> DiskRaw
    decreases lines.len(),
{
    if lines.len() == 0 {
        DiskRaw { free: 0, total: 0, label: "Local Disk"@ }
    } else {
        disk_step(disk_fold(lines.drop_last()), lines.last())
    }
}

/// The displayed label: the generic default becomes the system-drive
/// wording, a real volume name gets the drive letter appended.
pub open spec fn final_label(l: Seq<char>) -> Seq<char> {
    if l == "Local Disk"@ {
        "System Drive (C:)"@
    } else {
        l + " (C:)"@
    }
}

fn ltrim_exec(s: &str, i: usize, n: usize) -> (r: usize)
    requires
        n == s@.len(),
        i <= n,
    ensures
        r as int == ltrim_idx(s@, i as int),
        i <= r <= n,
    decreases n - i,
{
    if i >= n {
        return i;
    }
    let c = s.get_char(i);
    if unicode_space_char(c) {
        ltrim_exec(s, i + 1, n)
    } else {
        i
    }
}

fn rtrim_exec(s: &str, j: usize, n: usize) -> (r: usize)
    requires
        n == s@.len(),
        j <= n,
    ensures
        r as int == rtrim_idx(s@, j as int),
        r <= j,
    decreases j,
{
    if j == 0 {
        return 0;
    }
    let c = s.get_char(j - 1);
    if unicode_space_char(c) {
        rtrim_exec(s, j - 1, n)
    } else {
        j
    }
}

/// Copies `s` with surrounding whitespace removed.
fn trim_exec(s: &str) -> (r: String)
    ensures
        r@ == trimmed(s@),
{
    let n = s.unicode_len();
    let a = ltrim_exec(s, 0, n);
    let b = rtrim_exec(s, n, n);
    if a <= b {
        extract_range(s, a, b, n)
    } else {
        proof {
            assert(trimmed(s@) =~= Seq::<char>::empty());
        }
        String::new()
    }
}

/// Parses the query tool's output. The counters come from the last
/// `FreeSpace` and `Size` lines, the label from the last non-empty
/// `VolumeName` line, with the documented defaults when absent.
pub fn parse_disk_info(out: &str) -> (r: DiskInfo)
    ensures
        r.free == disk_fold(split_lines_spec(out@)).free,
        r.total == disk_fold(split_lines_spec(out@)).total,
        r.label@ == final_label(disk_fold(split_lines_spec(out@)).label),
{
    let lines = split_lines(out);
    let ghost lv = lines@.map_values(|l: String| l@);
    let mut free: u64 = 0;
    let mut total: u64 = 0;
    let mut label: String = "Local Disk".to_owned();
    let mut i: usize = 0;
    proof {
        assert(lv.subrange(0, 0) =~= Seq::<Seq<char>>::empty());
    }
    while i < lines.len()
        invariant
            i <= lines@.len(),
            lv == lines@.map_values(|l: String| l@),
            free == disk_fold(lv.subrange(0, i as int)).free,
            total == disk_fold(lv.subrange(0, i as int)).total,
            label@ == disk_fold(lv.subrange(0, i as int)).label,
        decreases lines@.len() - i,
    {
        let ghost pre = lv.subrange(0, i as int);
        let line: &String = &lines[i];
        let ln = line.as_str().unicode_len();
        let p = scan_to_exec(line.as_str(), 0, ln, '=');
        if p < ln && scan_to_exec(line.as_str(), p + 1, ln, '=') == ln {
            let key_raw = extract_range(line.as_str(), 0, p, ln);
            let val_raw = extract_range(line.as_str(), p + 1, ln, ln);
            let key = trim_exec(key_raw.as_str());
            let val = trim_exec(val_raw.as_str());
            let free_key: String = "FreeSpace".to_owned();
            let size_key: String = "Size".to_owned();
            let volume_key: String = "VolumeName".to_owned();
            if key == free_key {
                free = parse_u64_or_zero(val.as_str());
            } else if key == size_key {
                total = parse_u64_or_zero(val.as_str());
            } else if key == volume_key {
                if !val.as_str().is_empty() {
                    label = val;
                }
            }
        }
        i = i + 1;
        proof {
            let nxt = lv.subrange(0, i as int);
            assert(nxt =~= pre.push(lv[i - 1]));
            assert(nxt.drop_last() =~= pre);
            assert(nxt.last() == lines@[i - 1]@);
        }
    }
    proof {
        assert(lv.subrange(0, lv.len() as int) =~= lv);
    }
    let generic: String = "Local Disk".to_owned();
    if label == generic {
        DiskInfo { free, total, label: "System Drive (C:)".to_owned() }
    } else {
        let out_label = label.concat(" (C:)");
        DiskInfo { free, total, label: out_label }
    }
}

} // verus!
