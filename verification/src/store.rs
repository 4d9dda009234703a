//! The session catalog rules: which directories count as sessions,
//! how a session record is derived, and the newest-first ordering.
//!
//! The store never caches: the shell reads the root directory and
//! hands one `SessionEntry` per immediate child; everything else is
//! decided here.

use vstd::prelude::*;

use crate::metadata::{parse_metadata, spec_parse_metadata};
use crate::text::{format_size_mb, size_mb_text};

verus! {

/// What the shell observed about one immediate child of the root
/// directory.
pub struct SessionEntry {
    /// The directory's own name.
    pub name: String,
    pub is_dir: bool,
    /// Whether the recognized artifact file exists inside.
    pub has_artifact: bool,
    /// The metadata file's text, when one exists and could be read.
    pub metadata: Option<String>,
    /// Directory creation time in epoch seconds, zero when unknown.
    pub created_secs: u64,
    /// The artifact's size in bytes, zero when unreadable.
    pub artifact_size: u64,
    /// The artifact's full path.
    pub artifact_path: String,
}

/// One listed session.
pub struct FileRecord {
    pub id: u64,
    pub name: String,
    pub duration: String,
    pub size: String,
    pub folder: String,
    pub files: Vec<String>,
    pub full_path: String,
}

/// The mathematical image of a `FileRecord`.
pub struct RecordView {
    pub id: u64,
    pub name: Seq<char>,
    pub duration: Seq<char>,
    pub size: Seq<char>,
    pub folder: Seq<char>,
    pub files: Seq<Seq<char>>,
    pub full_path: Seq<char>,
}

impl View for FileRecord {
    type V = RecordView;

    open spec fn view(&self) -> RecordView {
        RecordView {
            id: self.id,
            name: self.name@,
            duration: self.duration@,
            size: self.size@,
            folder: self.folder@,
            files: self.files@.map_values(|s: String| s@),
            full_path: self.full_path@,
        }
    }
}

/// Whether a directory name carries the session prefix.
pub open spec fn starts_session(s: Seq<char>) -> bool {
    s.len() >= 8 && s.subrange(0, 8) == "Session_"@
}

/// Whether an entry is listed: a directory with the session prefix
/// that holds the recognized artifact file.
pub open spec fn keeps(e: SessionEntry) -> bool {
    e.is_dir && starts_session(e.name@) && e.has_artifact
}

/// The record derived from a kept entry: metadata fields when the
/// file parses, directory-derived defaults otherwise, and the
/// creation time as identifier whenever the stored timestamp is zero
/// or absent.
pub open spec fn entry_record(e: SessionEntry) -> RecordView {
    let parsed = (match e.metadata {
        None => None,
        Some(s) => spec_parse_metadata(s@),
    });
    let base_id: u64 = (match parsed {
        Some(p) => p.2,
        None => 0u64,
    });
    RecordView {
        id: if base_id == 0 {
            e.created_secs
        } else {
            base_id
        },
        name: (match parsed {
            Some(p) => p.0,
            None => e.name@,
        }),
        duration: (match parsed {
            Some(p) => p.1,
            None => "00:00"@,
        }),
        size: size_mb_text(e.artifact_size as nat),
        folder: e.name@,
        files: seq!["screen.mp4"@],
        full_path: e.artifact_path@,
    }
}

/// The views of a sequence of records.
pub open spec fn record_views(s: Seq<FileRecord>) -> Seq<RecordView> {
    s.map_values(|r: FileRecord| r@)
}

/// Newest first: identifiers never increase along the sequence.
pub open spec fn sorted_desc(s: Seq<RecordView>) -> bool {
    forall|i: int, j: int| 0 <= i < j < s.len() ==> s[i].id >= s[j].id
}

/// Decides whether a directory name carries the session prefix.
pub fn has_session_prefix(name: &str) -> (r: bool)
    ensures
        r == starts_session(name@),
{
    let n = name.unicode_len();
    if n < 8 {
        return false;
    }
    proof {
        reveal_strlit("Session_");
    }
    let ok = name.get_char(0) == 'S' && name.get_char(1) == 'e' && name.get_char(2) == 's'
        && name.get_char(3) == 's' && name.get_char(4) == 'i' && name.get_char(5) == 'o'
        && name.get_char(6) == 'n' && name.get_char(7) == '_';
    proof {
        let sub = name@.subrange(0, 8);
        assert(sub.len() == 8);
        assert(forall|k: int| 0 <= k < 8 ==> sub[k] == name@[k]);
        if ok {
            assert(sub =~= "Session_"@);
        } else {
            if sub == "Session_"@ {
                assert(sub[0] == 'S' && sub[1] == 'e' && sub[2] == 's' && sub[3] == 's'
                    && sub[4] == 'i' && sub[5] == 'o' && sub[6] == 'n' && sub[7] == '_');
                assert(false);
            }
        }
    }
    ok
}

/// Decides whether an entry is listed.
pub fn is_session_dir(e: &SessionEntry) -> (r: bool)
    ensures
        r == keeps(*e),
{
    e.is_dir && has_session_prefix(e.name.as_str()) && e.has_artifact
}

/// Derives the record of one kept entry.
pub fn build_record(e: &SessionEntry) -> (r: FileRecord)
    ensures
        r@ == entry_record(*e),
{
    let parsed = (match &e.metadata {
        None => None,
        Some(s) => parse_metadata(s.as_str()),
    });
    let (name, duration, base_id) = (match parsed {
        Some(m) => (m.name, m.duration, m.timestamp),
        None => (e.name.clone(), String::from_str("00:00"), 0u64),
    });
    let id = if base_id == 0 {
        e.created_secs
    } else {
        base_id
    };
    let mut files: Vec<String> = Vec::new();
    files.push("screen.mp4".to_owned());
    let r = FileRecord {
        id,
        name,
        duration,
        size: format_size_mb(e.artifact_size),
        folder: e.name.clone(),
        files,
        full_path: e.artifact_path.clone(),
    };
    proof {
        assert(r.files@.map_values(|s: String| s@) =~= seq!["screen.mp4"@]);
    }
    r
}

/// Orders records newest first while keeping exactly the same
/// records.
pub fn sort_desc_records(input: Vec<FileRecord>) -> (r: Vec<FileRecord>)
    ensures
        record_views(r@).to_multiset() == record_views(input@).to_multiset(),
        sorted_desc(record_views(r@)),
{
    broadcast use vstd::seq_lib::to_multiset_build, vstd::seq_lib::to_multiset_remove, vstd::seq_lib::group_to_multiset_ensures, vstd::multiset::group_multiset_axioms;

    let ghost all = record_views(input@);
    let mut rest = input;
    let mut out: Vec<FileRecord> = Vec::new();
    proof {
        assert(record_views(out@) =~= Seq::<RecordView>::empty());
        assert(record_views(out@).to_multiset().len() == 0);
        assert(record_views(rest@) == all);
        assert(record_views(out@).to_multiset().add(record_views(rest@).to_multiset())
            =~= all.to_multiset());
    }
    while rest.len() > 0
        invariant
            record_views(out@).to_multiset().add(record_views(rest@).to_multiset())
                == all.to_multiset(),
            sorted_desc(record_views(out@)),
            forall|a: int, b: int|
                0 <= a < out@.len() && 0 <= b < rest@.len() ==> record_views(out@)[a].id
                    >= record_views(rest@)[b].id,
        decreases rest@.len(),
    {
        let mut best: usize = 0;
        let mut k: usize = 1;
        while k < rest.len()
            invariant
                rest@.len() > 0,
                best < k,
                k <= rest@.len(),
                forall|j: int| 0 <= j < k ==> rest@[j]@.id <= rest@[best as int]@.id,
            decreases rest@.len() - k,
        {
            if rest[k].id > rest[best].id {
                best = k;
            }
            k = k + 1;
        }
        let ghost rest0 = rest@;
        let ghost out0 = out@;
        let rec = rest.remove(best);
        let ghost rv = rec@;
        out.push(rec);
        proof {
            assert(rest@ =~= rest0.remove(best as int));
            assert(record_views(rest@) =~= record_views(rest0).remove(best as int));
            assert(out@ =~= out0.push(out@.last()));
            assert(record_views(out@) =~= record_views(out0).push(rv));
            assert(record_views(rest0)[best as int] == rv);
            assert(record_views(rest0).contains(rv));
            record_views(rest0).to_multiset_ensures();
            assert(record_views(rest0).to_multiset().count(rv) > 0);
            vstd::seq_lib::to_multiset_build(record_views(out0), rv);
            assert(record_views(out@).to_multiset() == record_views(out0).push(rv).to_multiset());
            vstd::seq_lib::to_multiset_remove(record_views(rest0), best as int);
            assert(record_views(rest@).to_multiset() == record_views(rest0).remove(
                best as int,
            ).to_multiset());
            assert(record_views(out@).to_multiset().add(record_views(rest@).to_multiset())
                =~= all.to_multiset());
            assert forall|a: int, b: int|
                0 <= a < out@.len() && 0 <= b < rest@.len() implies record_views(out@)[a].id
                >= record_views(rest@)[b].id by {
                assert(rest@[b] == rest0[if b < best { b } else { b + 1 }]);
            }
            assert(sorted_desc(record_views(out@)));
        }
    }
    out
}

/// Lists the sessions among the observed entries: exactly the
/// complete session directories, as derived records, newest first.
pub fn list_sessions(entries: Vec<SessionEntry>) -> (r: Vec<FileRecord>)
    ensures
        record_views(r@).to_multiset() == entries@.filter(|e: SessionEntry| keeps(e)).map_values(
            |e: SessionEntry| entry_record(e),
        ).to_multiset(),
        sorted_desc(record_views(r@)),
{
    let mut kept: Vec<FileRecord> = Vec::new();
    let mut i: usize = 0;
    proof {
        reveal(Seq::filter);
        assert(entries@.subrange(0, 0) =~= Seq::<SessionEntry>::empty());
        assert(record_views(kept@) =~= entries@.subrange(0, 0).filter(
            |e: SessionEntry| keeps(e),
        ).map_values(|e: SessionEntry| entry_record(e)));
    }
    while i < entries.len()
        invariant
            i <= entries@.len(),
            record_views(kept@) == entries@.subrange(0, i as int).filter(
                |e: SessionEntry| keeps(e),
            ).map_values(|e: SessionEntry| entry_record(e)),
        decreases entries@.len() - i,
    {
        let ghost pre = entries@.subrange(0, i as int);
        let e = &entries[i];
        let ghost kept0 = kept@;
        if is_session_dir(e) {
            let rec = build_record(e);
            kept.push(rec);
        }
        i = i + 1;
        proof {
            reveal(Seq::filter);
            let nxt = entries@.subrange(0, i as int);
            assert(nxt =~= pre.push(entries@[i - 1]));
            assert(nxt.drop_last() =~= pre);
            if keeps(entries@[i - 1]) {
                assert(kept@ =~= kept0.push(kept@.last()));
                assert(record_views(kept@) =~= record_views(kept0).push(entry_record(
                    entries@[i - 1],
                )));
                assert(nxt.filter(|e: SessionEntry| keeps(e)) =~= pre.filter(
                    |e: SessionEntry| keeps(e),
                ).push(entries@[i - 1]));
                assert(record_views(kept@) =~= nxt.filter(|e: SessionEntry| keeps(e)).map_values(
                    |e: SessionEntry| entry_record(e),
                ));
            } else {
                assert(nxt.filter(|e: SessionEntry| keeps(e)) =~= pre.filter(
                    |e: SessionEntry| keeps(e),
                ));
                assert(record_views(kept@) =~= nxt.filter(|e: SessionEntry| keeps(e)).map_values(
                    |e: SessionEntry| entry_record(e),
                ));
            }
        }
    }
    proof {
        assert(entries@.subrange(0, entries@.len() as int) =~= entries@);
    }
    sort_desc_records(kept)
}

/// No listed record comes from anywhere but a complete session
/// directory: each one is derived from an observed entry that is a
/// directory with the session prefix and the artifact present.
pub proof fn lemma_list_only_complete(entries: Seq<SessionEntry>, listed: Seq<RecordView>, i: int)
    requires
        listed.to_multiset() == entries.filter(|e: SessionEntry| keeps(e)).map_values(
            |e: SessionEntry| entry_record(e),
        ).to_multiset(),
        0 <= i < listed.len(),
    ensures
        exists|j: int|
            0 <= j < entries.len() && keeps(#[trigger] entries[j]) && listed[i] == entry_record(
                entries[j],
            ),
{
    let kept = entries.filter(|e: SessionEntry| keeps(e));
    let mapped = kept.map_values(|e: SessionEntry| entry_record(e));
    listed.to_multiset_ensures();
    mapped.to_multiset_ensures();
    assert(listed.contains(listed[i]));
    assert(listed.to_multiset().count(listed[i]) > 0);
    assert(mapped.contains(listed[i]));
    let k = choose|k: int| 0 <= k < mapped.len() && mapped[k] == listed[i];
    assert(kept[k] == entries.filter(|e: SessionEntry| keeps(e))[k]);
    entries.lemma_filter_pred(|e: SessionEntry| keeps(e), k);
    lemma_filter_subset(entries, |e: SessionEntry| keeps(e), k);
    let j = choose|j: int| 0 <= j < entries.len() && entries[j] == kept[k];
    assert(keeps(entries[j]));
    assert(listed[i] == entry_record(entries[j]));
    assert(0 <= j < entries.len() && keeps(entries[j]) && listed[i] == entry_record(entries[j]));
}

/// Listing an empty root yields nothing at all.
pub proof fn lemma_list_empty(listed: Seq<RecordView>)
    requires
        listed.to_multiset() == Seq::<SessionEntry>::empty().filter(|e: SessionEntry| keeps(e))
            .map_values(|e: SessionEntry| entry_record(e)).to_multiset(),
    ensures
        listed.len() == 0,
{
    reveal(Seq::filter);
    let kept = Seq::<SessionEntry>::empty().filter(|e: SessionEntry| keeps(e));
    assert(kept.len() == 0);
    let mapped = kept.map_values(|e: SessionEntry| entry_record(e));
    assert(mapped.len() == 0);
    listed.to_multiset_ensures();
    mapped.to_multiset_ensures();
    assert(listed.to_multiset().len() == listed.len());
}

/// Every element a filter keeps occurs in the original sequence.
proof fn lemma_filter_subset<A>(s: Seq<A>, pred: spec_fn(A) -> bool, k: int)
    requires
        0 <= k < s.filter(pred).len(),
    ensures
        exists|j: int| 0 <= j < s.len() && s[j] == s.filter(pred)[k],
    decreases s.len(),
{
    reveal(Seq::filter);
    if s.len() > 0 {
        if k < s.drop_last().filter(pred).len() {
            lemma_filter_subset(s.drop_last(), pred, k);
            let j = choose|j: int|
                0 <= j < s.drop_last().len() && s.drop_last()[j] == s.drop_last().filter(pred)[k];
            assert(s[j] == s.filter(pred)[k]);
        } else {
            assert(s.filter(pred)[k] == s.last());
            assert(s[s.len() - 1] == s.filter(pred)[k]);
        }
    }
}

} // verus!
