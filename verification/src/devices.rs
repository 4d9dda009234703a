//! The device enumerator's parser: scans the encoder's diagnostic
//! stream for lines announcing a capture device, in the form
//! `[dshow @ <tag>] "<name>" (audio|video)`, and classifies each
//! device, keeping the order the encoder printed.

use vstd::prelude::*;

use crate::text::{
    is_unicode_space, scan_to, scan_to_exec, split_lines, split_lines_spec, extract_range,
    unicode_space_char,
};

verus! {

/// The available capture devices, each kind never left empty.
pub struct DeviceList {
    pub audio: Vec<String>,
    pub video: Vec<String>,
}

/// First index at or after `i` holding a character outside the
/// Unicode White_Space class.
pub open spec fn skip_spaces(s: Seq<char>, i: int) -> int
    decreases s.len() - i,
{
    if 0 <= i < s.len() && is_unicode_space(s[i]) {
        skip_spaces(s, i + 1)
    } else {
        i
    }
}

/// Whether `lit` occurs in `s` starting at `i`.
pub open spec fn lit_at(s: Seq<char>, i: int, lit: Seq<char>) -> bool {
    0 <= i && i + lit.len() <= s.len() && s.subrange(i, i + lit.len()) == lit
}

/// Tries the device pattern at position `i` of a line: the log-source
/// prefix, a bracketed tag, whitespace, a quoted non-empty name,
/// whitespace, and the kind in parentheses. Yields the name and
/// whether the device is an audio one.
pub open spec fn match_at(s: Seq<char>, i: int) -> Option<(Seq<char>, bool)> {
    if !lit_at(s, i, "[dshow @ "@) {
        None
    } else {
        let j = scan_to(s, i + 9, ']');
        if j >= s.len() || j == i + 9 {
            None
        } else {
            let k = skip_spaces(s, j + 1);
            if k == j + 1 || !(k < s.len() && s[k] == '"') {
                None
            } else {
                let q = scan_to(s, k + 1, '"');
                if q >= s.len() || q == k + 1 {
                    None
                } else {
                    let m = skip_spaces(s, q + 1);
                    if m == q + 1 {
                        None
                    } else if lit_at(s, m, "(audio)"@) {
                        Some((s.subrange(k + 1, q), true))
                    } else if lit_at(s, m, "(video)"@) {
                        Some((s.subrange(k + 1, q), false))
                    } else {
                        None
                    }
                }
            }
        }
    }
}

/// The first position at or after `i` where the pattern matches.
pub open spec fn first_match(s: Seq<char>, i: int) -> Option<(Seq<char>, bool)>
    decreases s.len() - i,
{
    if i < 0 || i >= s.len() {
        None
    } else {
        match match_at(s, i) {
            Some(p) => Some(p),
            None => first_match(s, i + 1),
        }
    }
}

/// What a whole line announces, if anything.
pub open spec fn line_device(s: Seq<char>) -> Option<(Seq<char>, bool)> {
    first_match(s, 0)
}

/// The audio device names announced by the lines, in order.
pub open spec fn audio_devices(lines: Seq<Seq<char>>) -> Seq<Seq<char>>
    decreases lines.len(),
{
    if lines.len() == 0 {
        Seq::empty()
    } else {
        audio_devices(lines.drop_last()) + (match line_device(lines.last()) {
            Some((nm, true)) => seq![nm],
            _ => Seq::empty(),
        })
    }
}

/// The video device names announced by the lines, in order.
pub open spec fn video_devices(lines: Seq<Seq<char>>) -> Seq<Seq<char>>
    decreases lines.len(),
{
    if lines.len() == 0 {
        Seq::empty()
    } else {
        video_devices(lines.drop_last()) + (match line_device(lines.last()) {
            Some((nm, false)) => seq![nm],
            _ => Seq::empty(),
        })
    }
}

/// A kind's final list: the parsed names, or the sentinel when none
/// were found.
pub open spec fn with_default(names: Seq<Seq<char>>) -> Seq<Seq<char>> {
    if names.len() == 0 {
        seq!["Default"@]
    } else {
        names
    }
}

/// The views of a list of names.
pub open spec fn names_view(v: Seq<String>) -> Seq<Seq<char>> {
    v.map_values(|s: String| s@)
}

fn skip_spaces_exec(s: &str, i: usize, n: usize) -> (r: usize)
    requires
        n == s@.len(),
        i <= n,
    ensures
        r as int == skip_spaces(s@, i as int),
        i <= r <= n,
    decreases n - i,
{
    if i >= n {
        return i;
    }
    let c = s.get_char(i);
    if unicode_space_char(c) {
        skip_spaces_exec(s, i + 1, n)
    } else {
        i
    }
}

fn prefix_tag_at(s: &str, i: usize, n: usize) -> (r: bool)
    requires
        n == s@.len(),
        i <= n,
    ensures
        r == lit_at(s@, i as int, "[dshow @ "@),
{
    proof {
        reveal_strlit("[dshow @ ");
    }
    if n - i < 9 {
        return false;
    }
    let ok = s.get_char(i) == '[' && s.get_char(i + 1) == 'd' && s.get_char(i + 2) == 's'
        && s.get_char(i + 3) == 'h' && s.get_char(i + 4) == 'o' && s.get_char(i + 5) == 'w'
        && s.get_char(i + 6) == ' ' && s.get_char(i + 7) == '@' && s.get_char(i + 8) == ' ';
    proof {
        let sub = s@.subrange(i as int, i as int + 9);
        assert(forall|k: int| 0 <= k < 9 ==> sub[k] == s@[i + k]);
        if ok {
            assert(sub =~= "[dshow @ "@);
        } else {
            if sub == "[dshow @ "@ {
                assert(sub[0] == '[' && sub[1] == 'd' && sub[2] == 's' && sub[3] == 'h'
                    && sub[4] == 'o' && sub[5] == 'w' && sub[6] == ' ' && sub[7] == '@'
                    && sub[8] == ' ');
                assert(false);
            }
        }
    }
    ok
}

/// Checks for `(audio)` or `(video)` at `i`: true means audio.
fn kind_at(s: &str, i: usize, n: usize) -> (r: Option<bool>)
    requires
        n == s@.len(),
        i <= n,
    ensures
        r == Some(true) <==> lit_at(s@, i as int, "(audio)"@),
        r == Some(false) <==> lit_at(s@, i as int, "(video)"@),
{
    proof {
        reveal_strlit("(audio)");
        reveal_strlit("(video)");
    }
    if n - i < 7 {
        return None;
    }
    let ghost sub = s@.subrange(i as int, i as int + 7);
    proof {
        assert(forall|k: int| 0 <= k < 7 ==> sub[k] == s@[i + k]);
    }
    if !(s.get_char(i) == '(' && s.get_char(i + 6) == ')') {
        proof {
            assert(sub[0] == s@[i as int] && sub[6] == s@[i as int + 6]);
            if sub == "(audio)"@ {
                assert(sub[0] == '(' && sub[6] == ')');
                assert(false);
            }
            if sub == "(video)"@ {
                assert(sub[0] == '(' && sub[6] == ')');
                assert(false);
            }
        }
        return None;
    }
    let audio = s.get_char(i + 1) == 'a' && s.get_char(i + 2) == 'u' && s.get_char(i + 3) == 'd'
        && s.get_char(i + 4) == 'i' && s.get_char(i + 5) == 'o';
    if audio {
        proof {
            assert(sub =~= "(audio)"@);
            assert("(audio)"@[1] != "(video)"@[1]);
            assert(sub != "(video)"@);
        }
        return Some(true);
    }
    let video = s.get_char(i + 1) == 'v' && s.get_char(i + 2) == 'i' && s.get_char(i + 3) == 'd'
        && s.get_char(i + 4) == 'e' && s.get_char(i + 5) == 'o';
    if video {
        proof {
            assert(sub =~= "(video)"@);
            assert("(audio)"@[1] != "(video)"@[1]);
            assert(sub != "(audio)"@);
        }
        return Some(false);
    }
    proof {
        if sub == "(audio)"@ {
            assert(sub[1] == 'a' && sub[2] == 'u' && sub[3] == 'd' && sub[4] == 'i' && sub[5]
                == 'o');
            assert(false);
        }
        if sub == "(video)"@ {
            assert(sub[1] == 'v' && sub[2] == 'i' && sub[3] == 'd' && sub[4] == 'e' && sub[5]
                == 'o');
            assert(false);
        }
    }
    None
}

fn match_at_exec(s: &str, i: usize, n: usize) -> (r: Option<(String, bool)>)
    requires
        n == s@.len(),
        i <= n,
    ensures
        (match_at(s@, i as int) == (match r {
            None => None::<(Seq<char>, bool)>,
            Some((nm, aud)) => Some((nm@, aud)),
        })),
{
    if !prefix_tag_at(s, i, n) {
        return None;
    }
    proof {
        reveal_strlit("[dshow @ ");
        assert(i + 9 <= n);
    }
    let j = scan_to_exec(s, i + 9, n, ']');
    if j >= n || j == i + 9 {
        return None;
    }
    let k = skip_spaces_exec(s, j + 1, n);
    if k == j + 1 || !(k < n && s.get_char(k) == '"') {
        return None;
    }
    let q = scan_to_exec(s, k + 1, n, '"');
    if q >= n || q == k + 1 {
        return None;
    }
    let m = skip_spaces_exec(s, q + 1, n);
    if m == q + 1 {
        return None;
    }
    match kind_at(s, m, n) {
        Some(aud) => {
            let name = extract_range(s, k + 1, q, n);
            Some((name, aud))
        },
        None => None,
    }
}

fn line_device_exec(s: &str) -> (r: Option<(String, bool)>)
    ensures
        (line_device(s@) == (match r {
            None => None::<(Seq<char>, bool)>,
            Some((nm, aud)) => Some((nm@, aud)),
        })),
{
    let n = s.unicode_len();
    let mut i: usize = 0;
    while i < n
        invariant
            n == s@.len(),
            i <= n,
            first_match(s@, 0) == first_match(s@, i as int),
        decreases n - i,
    {
        match match_at_exec(s, i, n) {
            Some(p) => {
                return Some(p);
            },
            None => {
                i = i + 1;
            },
        }
    }
    None
}

/// Parses the encoder's diagnostic stream into the device lists:
/// every matching line contributes its device, in print order, and a
/// kind with no devices gets the sentinel.
pub fn parse_device_list(diag: &str) -> (r: DeviceList)
    ensures
        names_view(r.audio@) == with_default(audio_devices(split_lines_spec(diag@))),
        names_view(r.video@) == with_default(video_devices(split_lines_spec(diag@))),
        r.audio@.len() > 0,
        r.video@.len() > 0,
{
    let lines = split_lines(diag);
    let ghost lv = lines@.map_values(|l: String| l@);
    let mut audio: Vec<String> = Vec::new();
    let mut video: Vec<String> = Vec::new();
    let mut i: usize = 0;
    proof {
        assert(lv.subrange(0, 0) =~= Seq::<Seq<char>>::empty());
        assert(names_view(audio@) =~= audio_devices(lv.subrange(0, 0)));
        assert(names_view(video@) =~= video_devices(lv.subrange(0, 0)));
    }
    while i < lines.len()
        invariant
            i <= lines@.len(),
            lv == lines@.map_values(|l: String| l@),
            names_view(audio@) == audio_devices(lv.subrange(0, i as int)),
            names_view(video@) == video_devices(lv.subrange(0, i as int)),
        decreases lines@.len() - i,
    {
        let ghost pre = lv.subrange(0, i as int);
        let ghost a0 = audio@;
        let ghost v0 = video@;
        match line_device_exec(lines[i].as_str()) {
            Some((nm, aud)) => {
                let ghost nmv = nm@;
                if aud {
                    audio.push(nm);
                } else {
                    video.push(nm);
                }
                proof {
                    if aud {
                        assert(audio@ =~= a0.push(audio@.last()));
                        assert(names_view(audio@) =~= names_view(a0).push(nmv));
                    } else {
                        assert(video@ =~= v0.push(video@.last()));
                        assert(names_view(video@) =~= names_view(v0).push(nmv));
                    }
                }
            },
            None => {},
        }
        i = i + 1;
        proof {
            let nxt = lv.subrange(0, i as int);
            assert(nxt =~= pre.push(lv[i - 1]));
            assert(nxt.drop_last() =~= pre);
            assert(nxt.last() == lv[i - 1]);
            assert(lv[i - 1] == lines@[i - 1]@);
            assert(names_view(audio@) =~= audio_devices(nxt));
            assert(names_view(video@) =~= video_devices(nxt));
        }
    }
    proof {
        assert(lv.subrange(0, lv.len() as int) =~= lv);
    }
    if audio.len() == 0 {
        audio.push("Default".to_owned());
        proof {
            assert(names_view(audio@) =~= seq!["Default"@]);
        }
    }
    if video.len() == 0 {
        video.push("Default".to_owned());
        proof {
            assert(names_view(video@) =~= seq!["Default"@]);
        }
    }
    DeviceList { audio, video }
}

} // verus!
