//! Parsing of the storage engine's machine-readable tabular listings.
//!
//! The engine prints one dataset or snapshot per line, columns separated by
//! whitespace. These parsers turn that text into typed records: rows of
//! name and sizes, state records (excluding the base dataset and snapshot
//! rows), and snapshot records keyed by `<dataset>@<snapshot>`.

use vstd::prelude::*;
use crate::size::{parse_size, parse_size_spec};
use crate::types::{valid_name, Snapshot, SnapshotInfo, SnapshotInfoV, State, StateInfo, StateInfoV};

verus! {

/// A separator between columns of one row.
pub open spec fn is_field_sep(c: char) -> bool {
    c == ' ' || c == '\t' || c == '\r'
}

/// The input cut at every newline, empty pieces kept.
pub open spec fn split_lines(s: Seq<char>) -> Seq<Seq<char>>
    decreases s.len(),
{
    if s.len() == 0 {
        seq![Seq::<char>::empty()]
    } else {
        let r = split_lines(s.drop_last());
        let c = s.last();
        if c == '\n' {
            r.push(Seq::<char>::empty())
        } else {
            r.update(r.len() - 1, r.last().push(c))
        }
    }
}

/// The whitespace-separated columns of one line, in order, empty pieces
/// dropped.
pub open spec fn split_fields(s: Seq<char>) -> Seq<Seq<char>>
    decreases s.len(),
{
    if s.len() == 0 {
        Seq::<Seq<char>>::empty()
    } else {
        let r = split_fields(s.drop_last());
        let c = s.last();
        if is_field_sep(c) {
            r
        } else if s.len() >= 2 && !is_field_sep(s[s.len() - 2]) {
            r.update(r.len() - 1, r.last().push(c))
        } else {
            r.push(seq![c])
        }
    }
}

/// The views of a sequence of strings.
pub open spec fn string_views(v: Seq<String>) -> Seq<Seq<char>> {
    v.map_values(|x: String| x@)
}

/// Cut a string at every newline, keeping empty pieces.
fn split_lines_exec(s: &str) -> (r: Vec<String>)
    ensures
        string_views(r@) == split_lines(s@),
{
    let n = s.unicode_len();
    let mut acc: Vec<String> = Vec::new();
    let mut ls: usize = 0;
    let mut i: usize = 0;
    proof {
        assert(string_views(acc@).push(s@.subrange(0, 0)) =~~= split_lines(s@.subrange(0, 0)));
    }
    while i < n
        invariant
            ls <= i <= n,
            n == s@.len(),
            string_views(acc@).push(s@.subrange(ls as int, i as int)) == split_lines(
                s@.subrange(0, i as int),
            ),
        decreases n - i,
    {
        let c = s.get_char(i);
        proof {
            assert(s@.subrange(0, i + 1).drop_last() =~= s@.subrange(0, i as int));
            assert(s@.subrange(0, i + 1).last() == s@[i as int]);
        }
        if c == '\n' {
            let line = String::from_str(s.substring_char(ls, i));
            acc.push(line);
            ls = i + 1;
            proof {
                assert(s@.subrange(ls as int, i + 1) =~= Seq::<char>::empty());
                assert(string_views(acc@) =~= string_views(acc@.drop_last()).push(
                    acc@.last()@,
                ));
                assert(string_views(acc@).push(s@.subrange(ls as int, i + 1)) =~= split_lines(
                    s@.subrange(0, i + 1),
                ));
            }
        } else {
            proof {
                assert(s@.subrange(ls as int, i + 1) =~= s@.subrange(ls as int, i as int).push(
                    s@[i as int],
                ));
                let old_r = split_lines(s@.subrange(0, i as int));
                assert(string_views(acc@).push(s@.subrange(ls as int, i + 1)) =~~= old_r.update(
                    old_r.len() - 1,
                    old_r.last().push(s@[i as int]),
                ));
            }
        }
        i += 1;
    }
    let line = String::from_str(s.substring_char(ls, n));
    acc.push(line);
    proof {
        assert(s@.subrange(0, n as int) =~= s@);
        assert(string_views(acc@) =~~= string_views(acc@.drop_last()).push(acc@.last()@));
        assert(string_views(acc@) =~~= split_lines(s@));
    }
    acc
}

/// The whitespace-separated columns of one line.
fn split_fields_exec(s: &str) -> (r: Vec<String>)
    ensures
        string_views(r@) == split_fields(s@),
{
    let n = s.unicode_len();
    let mut acc: Vec<String> = Vec::new();
    let mut fs: usize = 0;
    let mut infield = false;
    let mut i: usize = 0;
    proof {
        assert(string_views(acc@) =~~= split_fields(s@.subrange(0, 0)));
    }
    while i < n
        invariant
            i <= n,
            n == s@.len(),
            infield ==> 0 <= fs < i,
            infield == (i > 0 && !is_field_sep(s@[i - 1])),
            infield ==> string_views(acc@).push(s@.subrange(fs as int, i as int)) == split_fields(
                s@.subrange(0, i as int),
            ),
            !infield ==> string_views(acc@) == split_fields(s@.subrange(0, i as int)),
        decreases n - i,
    {
        let c = s.get_char(i);
        proof {
            assert(s@.subrange(0, i + 1).drop_last() =~= s@.subrange(0, i as int));
            assert(s@.subrange(0, i + 1).last() == s@[i as int]);
        }
        if c == ' ' || c == '\t' || c == '\r' {
            if infield {
                let f = String::from_str(s.substring_char(fs, i));
                acc.push(f);
                infield = false;
                proof {
                    assert(string_views(acc@) =~= string_views(acc@.drop_last()).push(
                        acc@.last()@,
                    ));
                }
            }
        } else {
            if !infield {
                fs = i;
                infield = true;
                proof {
                    assert(s@.subrange(fs as int, i + 1) =~= seq![s@[i as int]]);
                    assert(string_views(acc@).push(s@.subrange(fs as int, i + 1))
                        =~~= split_fields(s@.subrange(0, i as int)).push(seq![s@[i as int]]));
                }
            } else {
                proof {
                    assert(s@.subrange(fs as int, i + 1) =~= s@.subrange(fs as int, i as int).push(
                        s@[i as int],
                    ));
                    let old_r = split_fields(s@.subrange(0, i as int));
                    assert(string_views(acc@).push(s@.subrange(fs as int, i + 1)) =~~= old_r.update(
                        old_r.len() - 1,
                        old_r.last().push(s@[i as int]),
                    ));
                }
            }
        }
        i += 1;
    }
    if infield {
        let f = String::from_str(s.substring_char(fs, n));
        acc.push(f);
        proof {
            assert(string_views(acc@) =~~= string_views(acc@.drop_last()).push(acc@.last()@));
        }
    }
    proof {
        assert(s@.subrange(0, n as int) =~= s@);
        assert(string_views(acc@) =~~= split_fields(s@));
    }
    acc
}

/// The byte count a size column stands for, zero where it is malformed.
pub open spec fn size_or_zero(f: Seq<char>) -> u64 {
    match parse_size_spec(f) {
        Option::Some(v) => v,
        Option::None => 0u64,
    }
}

/// The typed rows of a dataset listing: one `(name, used, avail)` triple
/// for every line with at least three columns.
pub open spec fn list_rows(lines: Seq<Seq<char>>) -> Seq<(Seq<char>, u64, u64)>
    decreases lines.len(),
{
    if lines.len() == 0 {
        Seq::<(Seq<char>, u64, u64)>::empty()
    } else {
        let rest = list_rows(lines.drop_last());
        let f = split_fields(lines.last());
        if f.len() >= 3 {
            rest.push((f[0], size_or_zero(f[1]), size_or_zero(f[2])))
        } else {
            rest
        }
    }
}

/// What `parse_zfs_list` returns for a listing text.
pub open spec fn parse_zfs_list_spec(s: Seq<char>) -> Seq<(Seq<char>, u64, u64)> {
    list_rows(split_lines(s))
}

/// The views of a sequence of parsed rows.
pub open spec fn row_views(v: Seq<(String, u64, u64)>) -> Seq<(Seq<char>, u64, u64)> {
    v.map_values(|t: (String, u64, u64)| (t.0@, t.1, t.2))
}

/// Parse a dataset listing into `(name, used bytes, available bytes)`
/// rows; lines with fewer than three columns are dropped, malformed sizes
/// read as zero.
pub fn parse_zfs_list(output: &str) -> (r: Vec<(String, u64, u64)>)
    ensures
        row_views(r@) == parse_zfs_list_spec(output@),
{
    let lines = split_lines_exec(output);
    let mut r: Vec<(String, u64, u64)> = Vec::new();
    let mut i: usize = 0;
    proof {
        assert(row_views(r@) =~~= list_rows(string_views(lines@).subrange(0, 0)));
    }
    while i < lines.len()
        invariant
            i <= lines@.len(),
            string_views(lines@) == split_lines(output@),
            row_views(r@) == list_rows(string_views(lines@).subrange(0, i as int)),
        decreases lines@.len() - i,
    {
        let parts = split_fields_exec(lines[i].as_str());
        proof {
            let lv = string_views(lines@);
            assert(lv.subrange(0, i + 1).drop_last() =~= lv.subrange(0, i as int));
            assert(lv.subrange(0, i + 1).last() == lines@[i as int]@);
        }
        if parts.len() >= 3 {
            let name = parts[0].clone();
            let used = match parse_size(parts[1].as_str()) {
                Some(v) => v,
                None => 0,
            };
            let avail = match parse_size(parts[2].as_str()) {
                Some(v) => v,
                None => 0,
            };
            proof {
                assert(string_views(parts@)[0] == parts@[0]@);
                assert(string_views(parts@)[1] == parts@[1]@);
                assert(string_views(parts@)[2] == parts@[2]@);
            }
            r.push((name, used, avail));
            proof {
                assert(row_views(r@) =~= row_views(r@.drop_last()).push(
                    (r@.last().0@, r@.last().1, r@.last().2),
                ));
            }
        }
        i += 1;
    }
    proof {
        assert(string_views(lines@).subrange(0, string_views(lines@).len() as int) =~= string_views(
            lines@,
        ));
    }
    r
}

/// Whether the character occurs in the sequence.
pub open spec fn contains_char(s: Seq<char>, c: char) -> bool {
    exists|i: int| 0 <= i < s.len() && s[i] == c
}

/// What follows the last occurrence of the character; the whole sequence
/// where the character does not occur.
pub open spec fn after_last(s: Seq<char>, c: char) -> Seq<char>
    decreases s.len(),
{
    if s.len() == 0 {
        s
    } else if s.last() == c {
        Seq::<char>::empty()
    } else {
        after_last(s.drop_last(), c).push(s.last())
    }
}

/// What precedes the last occurrence of the character; the whole sequence
/// where the character does not occur.
pub open spec fn before_last(s: Seq<char>, c: char) -> Seq<char>
    decreases s.len(),
{
    if s.len() == 0 {
        s
    } else if s.last() == c {
        s.drop_last()
    } else {
        before_last(s.drop_last(), c)
    }
}

/// At the last occurrence of the character, `after_last` and `before_last`
/// are the two surrounding subranges.
proof fn lemma_split_at_last(s: Seq<char>, c: char, p: int)
    requires
        0 <= p < s.len(),
        s[p] == c,
        forall|j: int| p < j < s.len() ==> s[j] != c,
    ensures
        after_last(s, c) == s.subrange(p + 1, s.len() as int),
        before_last(s, c) == s.subrange(0, p),
    decreases s.len(),
{
    if p == s.len() - 1 {
        assert(after_last(s, c) =~= s.subrange(p + 1, s.len() as int));
        assert(s.drop_last() =~= s.subrange(0, p));
    } else {
        lemma_split_at_last(s.drop_last(), c, p);
        assert(s.drop_last().subrange(p + 1, s.len() - 1) =~= s.subrange(p + 1, s.len() - 1));
        assert(s.drop_last().subrange(0, p) =~= s.subrange(0, p));
        assert(after_last(s, c) =~= s.subrange(p + 1, s.len() as int));
    }
}

/// Where the character does not occur, the tail cut gives the whole
/// sequence and the head cut nothing.
proof fn lemma_split_no_char(s: Seq<char>, c: char)
    requires
        forall|j: int| 0 <= j < s.len() ==> s[j] != c,
    ensures
        after_last(s, c) == s,
        before_last(s, c) == Seq::<char>::empty(),
    decreases s.len(),
{
    if s.len() > 0 {
        lemma_split_no_char(s.drop_last(), c);
        assert(after_last(s, c) =~= s);
    }
}

/// The position of the last occurrence of a character, if it occurs.
fn rfind_char(s: &str, c: char) -> (r: Option<usize>)
    ensures
        r matches Some(p) ==> p < s@.len() && s@[p as int] == c && (forall|j: int|
            p < j < s@.len() ==> s@[j] != c),
        r is None ==> forall|j: int| 0 <= j < s@.len() ==> s@[j] != c,
        r is Some <==> contains_char(s@, c),
{
    let n = s.unicode_len();
    let mut e = n;
    while e > 0
        invariant
            e <= n,
            n == s@.len(),
            forall|j: int| e <= j < n ==> s@[j] != c,
        decreases e,
    {
        if s.get_char(e - 1) == c {
            return Some(e - 1);
        }
        e -= 1;
    }
    None
}

/// The record a dataset row yields in a state listing: rows naming the
/// base dataset itself or a snapshot are dropped, and the state name is
/// the last path segment of the dataset name.
pub open spec fn state_row(row: (Seq<char>, u64, u64), base: Seq<char>) -> Option<StateInfoV> {
    let name = row.0;
    if name == base || contains_char(name, '@') {
        None
    } else {
        let st = after_last(name, '/');
        if valid_name(st) {
            Some(
                StateInfoV {
                    state: st,
                    used_bytes: row.1,
                    available_bytes: row.2,
                    zfs_dataset: name,
                },
            )
        } else {
            None
        }
    }
}

/// The state records of a sequence of dataset rows, in listing order.
pub open spec fn states_of_rows(rows: Seq<(Seq<char>, u64, u64)>, base: Seq<char>) -> Seq<
    StateInfoV,
>
    decreases rows.len(),
{
    if rows.len() == 0 {
        Seq::<StateInfoV>::empty()
    } else {
        let rest = states_of_rows(rows.drop_last(), base);
        match state_row(rows.last(), base) {
            Option::Some(info) => rest.push(info),
            Option::None => rest,
        }
    }
}

/// What `parse_states_listing` returns for a listing text.
pub open spec fn states_listing_spec(s: Seq<char>, base: Seq<char>) -> Seq<StateInfoV> {
    states_of_rows(parse_zfs_list_spec(s), base)
}

/// The views of a sequence of state records.
pub open spec fn state_info_views(v: Seq<StateInfo>) -> Seq<StateInfoV> {
    v.map_values(|x: StateInfo| x@)
}

/// Parse a dataset listing into state records, dropping the base dataset
/// itself and any snapshot row.
pub fn parse_states_listing(output: &str, base: &str) -> (r: Vec<StateInfo>)
    ensures
        state_info_views(r@) == states_listing_spec(output@, base@),
{
    let rows = parse_zfs_list(output);
    let mut r: Vec<StateInfo> = Vec::new();
    let mut i: usize = 0;
    proof {
        assert(state_info_views(r@) =~~= states_of_rows(row_views(rows@).subrange(0, 0), base@));
    }
    while i < rows.len()
        invariant
            i <= rows@.len(),
            row_views(rows@) == parse_zfs_list_spec(output@),
            state_info_views(r@) == states_of_rows(row_views(rows@).subrange(0, i as int), base@),
        decreases rows@.len() - i,
    {
        proof {
            let rv = row_views(rows@);
            assert(rv.subrange(0, i + 1).drop_last() =~= rv.subrange(0, i as int));
            assert(rv.subrange(0, i + 1).last() == rv[i as int]);
            assert(rv[i as int] == (rows@[i as int].0@, rows@[i as int].1, rows@[i as int].2));
        }
        let name: &String = &rows[i].0;
        let is_base = crate::types::str_eq(name.as_str(), base);
        let has_at = rfind_char(name.as_str(), '@').is_some();
        if !is_base && !has_at {
            let nlen = name.as_str().unicode_len();
            let seg = match rfind_char(name.as_str(), '/') {
                Some(p) => {
                    proof {
                        lemma_split_at_last(name@, '/', p as int);
                    }
                    name.as_str().substring_char(p + 1, nlen)
                },
                None => {
                    proof {
                        lemma_split_no_char(name@, '/');
                    }
                    name.as_str()
                },
            };
            proof {
                assert(seg@ == after_last(name@, '/'));
            }
            match State::new(seg) {
                Ok(st) => {
                    let info = StateInfo {
                        state: st,
                        used_bytes: rows[i].1,
                        available_bytes: rows[i].2,
                        zfs_dataset: name.clone(),
                    };
                    r.push(info);
                    proof {
                        assert(state_info_views(r@) =~~= state_info_views(r@.drop_last()).push(
                            r@.last()@,
                        ));
                    }
                },
                Err(_) => {},
            }
        }
        i += 1;
    }
    proof {
        let rv = row_views(rows@);
        assert(rv.subrange(0, rv.len() as int) =~= rv);
    }
    r
}

/// The record a snapshot row yields: the columns are the composite
/// `<dataset>@<snapshot>` key and its used size; rows without the
/// delimiter, with too few columns, or with names the grammar refuses are
/// dropped.
pub open spec fn snapshot_row(line: Seq<char>) -> Option<SnapshotInfoV> {
    let f = split_fields(line);
    if f.len() >= 2 && contains_char(f[0], '@') {
        let dataset = before_last(f[0], '@');
        let snap = after_last(f[0], '@');
        let st = after_last(dataset, '/');
        if valid_name(st) && valid_name(snap) {
            Some(
                SnapshotInfoV {
                    state: st,
                    snapshot: snap,
                    full_name: f[0],
                    used_bytes: size_or_zero(f[1]),
                },
            )
        } else {
            None
        }
    } else {
        None
    }
}

/// The snapshot records of a sequence of lines, in listing order.
pub open spec fn snapshots_of_lines(lines: Seq<Seq<char>>) -> Seq<SnapshotInfoV>
    decreases lines.len(),
{
    if lines.len() == 0 {
        Seq::<SnapshotInfoV>::empty()
    } else {
        let rest = snapshots_of_lines(lines.drop_last());
        match snapshot_row(lines.last()) {
            Option::Some(info) => rest.push(info),
            Option::None => rest,
        }
    }
}

/// What `parse_snapshots_listing` returns for a listing text.
pub open spec fn snapshots_listing_spec(s: Seq<char>) -> Seq<SnapshotInfoV> {
    snapshots_of_lines(split_lines(s))
}

/// The views of a sequence of snapshot records.
pub open spec fn snapshot_info_views(v: Seq<SnapshotInfo>) -> Seq<SnapshotInfoV> {
    v.map_values(|x: SnapshotInfo| x@)
}

/// Parse a snapshot listing into snapshot records: each row names a
/// snapshot by its composite `<dataset>@<snapshot>` key followed by its
/// used size.
pub fn parse_snapshots_listing(output: &str) -> (r: Vec<SnapshotInfo>)
    ensures
        snapshot_info_views(r@) == snapshots_listing_spec(output@),
{
    let lines = split_lines_exec(output);
    let mut r: Vec<SnapshotInfo> = Vec::new();
    let mut i: usize = 0;
    proof {
        assert(snapshot_info_views(r@) =~~= snapshots_of_lines(
            string_views(lines@).subrange(0, 0),
        ));
    }
    while i < lines.len()
        invariant
            i <= lines@.len(),
            string_views(lines@) == split_lines(output@),
            snapshot_info_views(r@) == snapshots_of_lines(
                string_views(lines@).subrange(0, i as int),
            ),
        decreases lines@.len() - i,
    {
        proof {
            let lv = string_views(lines@);
            assert(lv.subrange(0, i + 1).drop_last() =~= lv.subrange(0, i as int));
            assert(lv.subrange(0, i + 1).last() == lines@[i as int]@);
        }
        let parts = split_fields_exec(lines[i].as_str());
        if parts.len() >= 2 {
            proof {
                assert(string_views(parts@)[0] == parts@[0]@);
                assert(string_views(parts@)[1] == parts@[1]@);
            }
            let full: &String = &parts[0];
            match rfind_char(full.as_str(), '@') {
                Some(p) => {
                    proof {
                        lemma_split_at_last(full@, '@', p as int);
                    }
                    let fn_len = full.as_str().unicode_len();
                    let dataset = full.as_str().substring_char(0, p);
                    let snap_name = full.as_str().substring_char(p + 1, fn_len);
                    let ds_len = dataset.unicode_len();
                    let seg = match rfind_char(dataset, '/') {
                        Some(q) => {
                            proof {
                                lemma_split_at_last(dataset@, '/', q as int);
                            }
                            dataset.substring_char(q + 1, ds_len)
                        },
                        None => {
                            proof {
                                lemma_split_no_char(dataset@, '/');
                            }
                            dataset
                        },
                    };
                    proof {
                        assert(dataset@ == before_last(full@, '@'));
                        assert(snap_name@ == after_last(full@, '@'));
                        assert(seg@ == after_last(dataset@, '/'));
                    }
                    match (State::new(seg), Snapshot::new(snap_name)) {
                        (Ok(st), Ok(sn)) => {
                            let used = match parse_size(parts[1].as_str()) {
                                Some(v) => v,
                                None => 0,
                            };
                            let info = SnapshotInfo {
                                state: st,
                                snapshot: sn,
                                full_name: full.clone(),
                                used_bytes: used,
                            };
                            r.push(info);
                            proof {
                                assert(snapshot_info_views(r@) =~~= snapshot_info_views(
                                    r@.drop_last(),
                                ).push(r@.last()@));
                            }
                        },
                        _ => {},
                    }
                },
                None => {},
            }
        }
        i += 1;
    }
    proof {
        let lv = string_views(lines@);
        assert(lv.subrange(0, lv.len() as int) =~= lv);
    }
    r
}

} // verus!
