//! The instance registry: what a record of a running desktop client must
//! hold, where its files live, and which records survive pruning.
use vstd::prelude::*;
use vstd::string::StringExecFns;

use crate::parse::{desktop_id_problem, is_valid_desktop_id};
use crate::text::{
    chars_lt, debug_quoted, join2, join3, join4, key_lt, lemma_key_lt_asymmetric,
    lemma_key_lt_total, lemma_key_lt_transitive, quoted, same_text,
};

verus! {

pub const BUNDLE_ID: &'static str = "com.gustavocaiano.herdr";

/// What the registry stores about one launched client.
#[derive(Debug, Clone, PartialEq, Eq)]
pub struct InstanceRecord {
    pub desktop_id: String,
    pub pid: i32,
    pub launch_date_unix_ms: i64,
    pub bundle_id: String,
    pub bundle_path: String,
    pub mode: String,
    pub target: Option<String>,
    pub session: Option<String>,
    pub keybindings: Option<String>,
}

/// The registry directory.
#[derive(Debug, Clone)]
pub struct Registry {
    pub root: String,
}

#[derive(Debug)]
pub struct RegistryError(pub String);

impl RegistryError {
    pub fn message(&self) -> (out: String)
        ensures
            out@ == self.0@,
    {
        self.0.clone()
    }
}

/// The bundle id belongs to the Herdr app family: the Local app itself or a
/// per-desktop app beneath it.
pub open spec fn family_bundle_id(b: Seq<char>) -> bool {
    b == BUNDLE_ID@ || (b.len() >= BUNDLE_ID@.len() + 1 && b.take(BUNDLE_ID@.len() as int + 1) == BUNDLE_ID@
        + seq!['.'])
}

/// On Unix a path is absolute when it starts with `/` (`Path::is_absolute`).
pub open spec fn absolute_path(p: Seq<char>) -> bool {
    p.len() > 0 && p[0] == '/'
}

pub open spec fn opt_view(o: Option<String>) -> Option<Seq<char>> {
    match o {
        Some(s) => Some(s@),
        None => None,
    }
}

/// The record's mode and endpoint fields agree with each other.
pub open spec fn record_consistent(r: InstanceRecord) -> bool {
    (r.mode@ == "local"@ && r.target is None && r.session is None && r.keybindings is None) || (
    r.mode@ == "remote"@ && r.target is Some && r.session is Some && (opt_view(r.keybindings)
        == Some("local"@) || opt_view(r.keybindings) == Some("server"@)))
}

/// The message of the first rule that the record breaks, if any.
pub open spec fn record_problem(r: InstanceRecord) -> Option<Seq<char>> {
    if desktop_id_problem(r.desktop_id@) is Some {
        Some("invalid desktop id "@ + debug_quoted(r.desktop_id@))
    } else if r.pid <= 0 || r.launch_date_unix_ms <= 0 {
        Some("instance record PID and launch date must be positive"@)
    } else if !family_bundle_id(r.bundle_id@) || !absolute_path(r.bundle_path@) {
        Some("instance record has invalid app identity"@)
    } else if !record_consistent(r) {
        Some("instance record has inconsistent desktop configuration"@)
    } else {
        None
    }
}

pub fn is_family_bundle_id(bundle_id: &str) -> (r: bool)
    ensures
        r == family_bundle_id(bundle_id@),
{
    let b = crate::text::chars_of(bundle_id);
    let base = crate::text::chars_of(BUNDLE_ID);
    if crate::text::same_chars(b.as_slice(), base.as_slice()) {
        return true;
    }
    if b.len() <= base.len() {
        return false;
    }
    let mut i: usize = 0;
    while i < base.len()
        invariant
            i <= base@.len(),
            base@.len() + 1 <= b@.len(),
            base@ == BUNDLE_ID@,
            b@ == bundle_id@,
            forall|j: int| 0 <= j < i ==> b@[j] == base@[j],
        decreases base.len() - i,
    {
        if b[i] != base[i] {
            assert(b@.take(base@.len() as int + 1)[i as int] != (base@ + seq!['.'])[i as int]);
            return false;
        }
        i += 1;
    }
    if b[base.len()] != '.' {
        assert(b@.take(base@.len() as int + 1)[base@.len() as int] != (base@ + seq!['.'])[base@.len() as int]);
        return false;
    }
    assert(b@.take(base@.len() as int + 1) =~= base@ + seq!['.']);
    true
}

pub fn is_absolute(path: &str) -> (r: bool)
    ensures
        r == absolute_path(path@),
{
    let p = crate::text::chars_of(path);
    p.len() > 0 && p[0] == '/'
}

fn opt_is(o: &Option<String>, text: &str) -> (r: bool)
    ensures
        r == (opt_view(*o) == Some(text@)),
{
    match o {
        Some(s) => same_text(s.as_str(), text),
        None => false,
    }
}

/// The id must be a valid desktop id.
pub fn require_valid_id(desktop_id: &str) -> (r: Result<(), RegistryError>)
    ensures
        match r {
            Ok(()) => desktop_id_problem(desktop_id@) is None,
            Err(e) => desktop_id_problem(desktop_id@) is Some && e.0@ == "invalid desktop id "@
                + debug_quoted(desktop_id@),
        },
{
    if !is_valid_desktop_id(desktop_id) {
        let q = quoted(desktop_id);
        return Err(RegistryError(join2("invalid desktop id ", q.as_str())));
    }
    Ok(())
}

/// Checks a record before it is written or trusted.
pub fn validate_record(record: &InstanceRecord) -> (r: Result<(), RegistryError>)
    ensures
        match r {
            Ok(()) => record_problem(*record) is None,
            Err(e) => record_problem(*record) == Some(e.0@),
        },
{
    require_valid_id(record.desktop_id.as_str())?;
    if record.pid <= 0 || record.launch_date_unix_ms <= 0 {
        return Err(
            RegistryError(String::from_str("instance record PID and launch date must be positive")),
        );
    }
    if !is_family_bundle_id(record.bundle_id.as_str()) || !is_absolute(record.bundle_path.as_str()) {
        return Err(RegistryError(String::from_str("instance record has invalid app identity")));
    }
    let local = same_text(record.mode.as_str(), "local") && record.target.is_none()
        && record.session.is_none() && record.keybindings.is_none();
    let remote = same_text(record.mode.as_str(), "remote") && record.target.is_some()
        && record.session.is_some() && (opt_is(&record.keybindings, "local") || opt_is(
        &record.keybindings,
        "server",
    ));
    if !local && !remote {
        return Err(
            RegistryError(
                String::from_str("instance record has inconsistent desktop configuration"),
            ),
        );
    }
    Ok(())
}

/// `"{root}/{id}.{extension}"`, the path of one of a desktop's files.
pub open spec fn component_path_of(root: Seq<char>, id: Seq<char>, extension: Seq<char>) -> Seq<
    char,
> {
    crate::launch::joined_path(root, id + "."@ + extension)
}

/// A valid desktop id names an entry directly inside the registry root: its
/// file name holds no `/` and does not start with `.`, so `..` and hidden or
/// nested paths cannot be reached through an id.
pub proof fn law_component_paths_stay_in_root(root: Seq<char>, desktop_id: Seq<char>, extension: Seq<char>)
    requires
        desktop_id_problem(desktop_id) is None,
        !crate::text::has_char(extension, '/'),
    ensures
        component_path_of(root, desktop_id, extension) == crate::launch::joined_path(
            root,
            desktop_id + "."@ + extension,
        ),
        !crate::text::has_char(desktop_id + "."@ + extension, '/'),
        (desktop_id + "."@ + extension)[0] != '.',
{
    reveal_strlit(".");
    let name = desktop_id + "."@ + extension;
    assert(name[0] == desktop_id[0]);
    if crate::text::has_char(name, '/') {
        let i = choose|i: int| 0 <= i < name.len() && name[i] == '/';
        if i < desktop_id.len() {
            assert(name[i] == desktop_id[i]);
            if i > 0 {
                assert(crate::parse::is_id_char(desktop_id[i]));
            }
        } else if i == desktop_id.len() {
            assert(name[i] == '.');
        } else {
            assert(name[i] == extension[i - desktop_id.len() - 1]);
        }
    }
}

impl Registry {
    pub fn new(root: String) -> (r: Registry)
        ensures
            r.root == root,
    {
        Registry { root }
    }

    pub fn root(&self) -> (r: &str)
        ensures
            r@ == self.root@,
    {
        self.root.as_str()
    }

    /// The path of the desktop's `extension` file under the root.
    pub fn component_path(&self, desktop_id: &str, extension: &str) -> (r: Result<
        String,
        RegistryError,
    >)
        ensures
            match r {
                Ok(p) => desktop_id_problem(desktop_id@) is None && p@ == component_path_of(
                    self.root@,
                    desktop_id@,
                    extension@,
                ),
                Err(e) => desktop_id_problem(desktop_id@) is Some && e.0@ == "invalid desktop id "@
                    + debug_quoted(desktop_id@),
            },
    {
        require_valid_id(desktop_id)?;
        let name = join3(desktop_id, ".", extension);
        Ok(crate::launch::join_path(self.root.as_str(), name.as_str()))
    }

    /// The path of a fresh temporary file for the desktop's record, unique by
    /// process id and nonce.
    pub fn temporary_path(&self, desktop_id: &str, process_id: &str, nonce: &str) -> (r: Result<
        String,
        RegistryError,
    >)
        ensures
            match r {
                Ok(p) => desktop_id_problem(desktop_id@) is None && p@ == crate::launch::joined_path(
                    self.root@,
                    "."@ + desktop_id@ + "."@ + process_id@ + "."@ + nonce@ + ".tmp"@,
                ),
                Err(e) => desktop_id_problem(desktop_id@) is Some,
            },
    {
        require_valid_id(desktop_id)?;
        let head = join4(".", desktop_id, ".", process_id);
        let name = join4(head.as_str(), ".", nonce, ".tmp");
        assert(name@ =~= "."@ + desktop_id@ + "."@ + process_id@ + "."@ + nonce@ + ".tmp"@);
        Ok(crate::launch::join_path(self.root.as_str(), name.as_str()))
    }
}

/// A registry file found while pruning holds a record that may be trusted if
/// its process is alive: it is named after the record's desktop and the record
/// is valid.
pub open spec fn record_trustworthy(stem: Option<Seq<char>>, r: InstanceRecord) -> bool {
    stem == Some(r.desktop_id@) && record_problem(r) is None
}

pub fn is_trustworthy(stem: &Option<String>, record: &InstanceRecord) -> (r: bool)
    ensures
        r == record_trustworthy(opt_view(*stem), *record),
{
    opt_is(stem, record.desktop_id.as_str()) && validate_record(record).is_ok()
}

/// `s` is ordered by desktop id.
pub open spec fn sorted_by_id(s: Seq<InstanceRecord>) -> bool {
    forall|i: int, j: int|
        0 <= i < j < s.len() ==> !key_lt(#[trigger] s[j].desktop_id@, #[trigger] s[i].desktop_id@)
}

/// The first record for desktop `id`.
pub open spec fn first_record_at(s: Seq<InstanceRecord>, id: Seq<char>, i: int) -> bool {
    0 <= i < s.len() && s[i].desktop_id@ == id && forall|j: int|
        0 <= j < i ==> s[j].desktop_id@ != id
}

pub fn copy_text(o: &Option<String>) -> (c: Option<String>)
    ensures
        c == *o,
{
    match o {
        Some(s) => Some(s.clone()),
        None => None,
    }
}

/// A copy of `r`, field by field.
pub fn copy_record(r: &InstanceRecord) -> (c: InstanceRecord)
    ensures
        c == *r,
{
    InstanceRecord {
        desktop_id: r.desktop_id.clone(),
        pid: r.pid,
        launch_date_unix_ms: r.launch_date_unix_ms,
        bundle_id: r.bundle_id.clone(),
        bundle_path: r.bundle_path.clone(),
        mode: r.mode.clone(),
        target: copy_text(&r.target),
        session: copy_text(&r.session),
        keybindings: copy_text(&r.keybindings),
    }
}

/// The live record of desktop `id` among `live` (what `Registry::live_for`
/// picks once the registry is pruned).
pub fn live_record_for(live: Vec<InstanceRecord>, desktop_id: &str) -> (r: Result<
    Option<InstanceRecord>,
    RegistryError,
>)
    ensures
        match r {
            Ok(Some(rec)) => desktop_id_problem(desktop_id@) is None && exists|i: int|
                first_record_at(live@, desktop_id@, i) && rec == live@[i],
            Ok(None) => desktop_id_problem(desktop_id@) is None && forall|i: int|
                0 <= i < live@.len() ==> (#[trigger] live@[i]).desktop_id@ != desktop_id@,
            Err(e) => desktop_id_problem(desktop_id@) is Some,
        },
{
    require_valid_id(desktop_id)?;
    let mut i: usize = 0;
    while i < live.len()
        invariant
            i <= live@.len(),
            forall|j: int| 0 <= j < i ==> (#[trigger] live@[j]).desktop_id@ != desktop_id@,
            desktop_id_problem(desktop_id@) is None,
        decreases live.len() - i,
    {
        if same_text(live[i].desktop_id.as_str(), desktop_id) {
            assert(first_record_at(live@, desktop_id@, i as int));
            let rec = copy_record(&live[i]);
            assert(rec == live@[i as int]);
            return Ok(Some(rec));
        }
        i += 1;
    }
    Ok(None)
}


// ---------------------------------------------------------------------------
// Pruning.
// ---------------------------------------------------------------------------

/// The index of the last `.` in `name`, or -1.
pub open spec fn last_dot(name: Seq<char>) -> int
    decreases name.len(),
{
    if name.len() == 0 {
        -1
    } else if name.last() == '.' {
        name.len() - 1
    } else {
        last_dot(name.drop_last())
    }
}

/// The parts of a directory entry's name that `Path::file_stem` and
/// `Path::extension` give: a name without a `.` after its first character
/// (and `..`) has no extension and is all stem; otherwise the extension
/// follows the last `.` and the stem precedes it.
pub open spec fn name_parts(name: Seq<char>) -> (Seq<char>, Option<Seq<char>>) {
    let k = last_dot(name);
    if name == ".."@ || k <= 0 {
        (name, None)
    } else {
        (name.take(k), Some(name.subrange(k + 1, name.len() as int)))
    }
}

/// Splits an entry's name into its stem and extension.
pub fn split_name(name: &str) -> (r: (String, Option<String>))
    ensures
        r.0@ == name_parts(name@).0,
        opt_view(r.1) == name_parts(name@).1,
{
    let chars = crate::text::chars_of(name);
    let n = chars.len();
    let mut k: usize = n;
    assert(chars@.take(n as int) =~= chars@);
    while k > 0 && chars[k - 1] != '.'
        invariant
            k <= n,
            n == chars@.len(),
            chars@ == name@,
            forall|i: int| k <= i < n ==> chars@[i] != '.',
            last_dot(chars@) == last_dot(chars@.take(k as int)),
        decreases k,
    {
        assert(chars@.take(k as int).drop_last() =~= chars@.take(k - 1));
        k -= 1;
    }
    proof {
        if k > 0 {
            assert(chars@.take(k as int).last() == '.');
        }
        assert(last_dot(chars@) == k - 1);
    }
    let whole = crate::text::string_of(chars.as_slice());
    proof {
        reveal_strlit("..");
    }
    if crate::text::same_text(name, "..") || k <= 1 {
        return (whole, None);
    }
    let stem = crate::text::string_from(chars.as_slice(), 0, k - 1);
    let extension = crate::text::string_from(chars.as_slice(), k, n);
    (stem, Some(extension))
}

/// What a directory entry is, as its file type reports it without following
/// symlinks.
#[derive(Debug, Clone, Copy, PartialEq, Eq, Structural)]
pub enum EntryKind {
    File,
    Symlink,
    Other,
}

/// What pruning does with a directory entry before reading it: entries that
/// are not `.toml` files are left alone, `.toml` entries that are not regular
/// files are removed, and regular ones are read.
#[derive(Debug, Clone, Copy, PartialEq, Eq, Structural)]
pub enum EntryAction {
    Skip,
    RemoveUnsafe,
    ReadRecord,
}

pub open spec fn entry_action_of(name: Seq<char>, kind: EntryKind) -> EntryAction {
    if name_parts(name).1 != Some("toml"@) {
        EntryAction::Skip
    } else if kind != EntryKind::File {
        EntryAction::RemoveUnsafe
    } else {
        EntryAction::ReadRecord
    }
}

/// The entry holds a record (by its name: a `.toml` extension).
pub fn is_record_entry(name: &str) -> (r: bool)
    ensures
        r == (name_parts(name@).1 == Some("toml"@)),
{
    let (_, extension) = split_name(name);
    opt_is(&extension, "toml")
}

pub fn entry_action(name: &str, kind: EntryKind) -> (a: EntryAction)
    ensures
        a == entry_action_of(name@, kind),
{
    let (_, extension) = split_name(name);
    if !opt_is(&extension, "toml") {
        return EntryAction::Skip;
    }
    match kind {
        EntryKind::File => EntryAction::ReadRecord,
        _ => EntryAction::RemoveUnsafe,
    }
}

/// A record read from the entry `name` may be kept, if its process is alive:
/// the entry is named after the record's desktop and the record is valid.
pub fn keeps_record(name: &str, record: &InstanceRecord) -> (r: bool)
    ensures
        r == record_trustworthy(Some(name_parts(name@).0), *record),
{
    let (stem, _) = split_name(name);
    is_trustworthy(&Some(stem), record)
}

/// Puts `r` into `s` after every record whose id does not come after its own.
pub open spec fn insert_by_id(s: Seq<InstanceRecord>, r: InstanceRecord) -> Seq<InstanceRecord>
    decreases s.len(),
{
    if s.len() == 0 {
        seq![r]
    } else if key_lt(r.desktop_id@, s.last().desktop_id@) {
        insert_by_id(s.drop_last(), r).push(s.last())
    } else {
        s.push(r)
    }
}

/// The records ordered by desktop id, records with equal ids keeping their
/// order (a stable sort).
pub open spec fn sorted_records(s: Seq<InstanceRecord>) -> Seq<InstanceRecord>
    decreases s.len(),
{
    if s.len() == 0 {
        Seq::empty()
    } else {
        insert_by_id(sorted_records(s.drop_last()), s.last())
    }
}

proof fn lemma_insert_at(s: Seq<InstanceRecord>, r: InstanceRecord, j: int)
    requires
        0 <= j <= s.len(),
        forall|k: int| j <= k < s.len() ==> key_lt(r.desktop_id@, #[trigger] s[k].desktop_id@),
        j > 0 ==> !key_lt(r.desktop_id@, s[j - 1].desktop_id@),
    ensures
        insert_by_id(s, r) == s.take(j).push(r) + s.skip(j),
    decreases s.len(),
{
    if s.len() == j {
        assert(s.take(j) =~= s);
        assert(s.skip(j) =~= Seq::<InstanceRecord>::empty());
        if j == 0 {
            assert(seq![r] =~= s.take(j).push(r) + s.skip(j));
        } else {
            assert(s.push(r) =~= s.take(j).push(r) + s.skip(j));
        }
    } else {
        let t = s.drop_last();
        assert forall|k: int| j <= k < t.len() implies key_lt(
            r.desktop_id@,
            #[trigger] t[k].desktop_id@,
        ) by {
            assert(t[k] == s[k]);
        }
        lemma_insert_at(t, r, j);
        assert(insert_by_id(s, r) == insert_by_id(t, r).push(s.last()));
        assert(t.take(j) =~= s.take(j));
        assert(t.skip(j).push(s.last()) =~= s.skip(j));
        assert(insert_by_id(s, r) =~= s.take(j).push(r) + s.skip(j));
    }
}

proof fn lemma_insert_members(s: Seq<InstanceRecord>, r: InstanceRecord)
    ensures
        forall|x: InstanceRecord| #[trigger]
            insert_by_id(s, r).contains(x) ==> x == r || s.contains(x),
    decreases s.len(),
{
    if s.len() > 0 && key_lt(r.desktop_id@, s.last().desktop_id@) {
        let t = s.drop_last();
        lemma_insert_members(t, r);
        assert forall|x: InstanceRecord| #[trigger]
            insert_by_id(s, r).contains(x) implies x == r || s.contains(x) by {
            let u = insert_by_id(t, r);
            let k = choose|k: int| 0 <= k < u.push(s.last()).len() && u.push(s.last())[k] == x;
            if k < u.len() {
                assert(u[k] == x);
                assert(u.contains(x));
                if x != r {
                    let m = choose|m: int| 0 <= m < t.len() && t[m] == x;
                    assert(s[m] == x);
                }
            } else {
                assert(s[s.len() - 1] == x);
            }
        }
    } else if s.len() > 0 {
        assert forall|x: InstanceRecord| #[trigger]
            insert_by_id(s, r).contains(x) implies x == r || s.contains(x) by {
            let k = choose|k: int| 0 <= k < s.push(r).len() && s.push(r)[k] == x;
            if k < s.len() {
                assert(s[k] == x);
            }
        }
    }
}

proof fn lemma_insert_sorted(s: Seq<InstanceRecord>, r: InstanceRecord)
    requires
        sorted_by_id(s),
    ensures
        sorted_by_id(insert_by_id(s, r)),
        insert_by_id(s, r).to_multiset() == s.to_multiset().insert(r),
        insert_by_id(s, r).len() == s.len() + 1,
    decreases s.len(),
{
    broadcast use vstd::seq_lib::group_to_multiset_ensures, vstd::multiset::group_multiset_axioms;

    if s.len() == 0 {
        assert(seq![r] =~= Seq::<InstanceRecord>::empty().push(r));
        assert(Seq::<InstanceRecord>::empty().to_multiset() =~= s.to_multiset());
    } else if key_lt(r.desktop_id@, s.last().desktop_id@) {
        let t = s.drop_last();
        assert(sorted_by_id(t)) by {
            assert forall|i: int, j: int| 0 <= i < j < t.len() implies !key_lt(
                #[trigger] t[j].desktop_id@,
                #[trigger] t[i].desktop_id@,
            ) by {
                assert(t[i] == s[i] && t[j] == s[j]);
            }
        }
        lemma_insert_sorted(t, r);
        lemma_insert_members(t, r);
        let u = insert_by_id(t, r);
        let v = u.push(s.last());
        assert(insert_by_id(s, r) == v);
        assert forall|i: int| 0 <= i < u.len() implies !key_lt(
            s.last().desktop_id@,
            #[trigger] u[i].desktop_id@,
        ) by {
            assert(u.contains(u[i]));
            if u[i] != r {
                let k = choose|k: int| 0 <= k < t.len() && t[k] == u[i];
                assert(t[k] == s[k]);
                assert(!key_lt(s[s.len() - 1].desktop_id@, s[k].desktop_id@));
            } else {
                lemma_key_lt_asymmetric(r.desktop_id@, s.last().desktop_id@);
            }
        }
        assert forall|i: int, j: int| 0 <= i < j < v.len() implies !key_lt(
            #[trigger] v[j].desktop_id@,
            #[trigger] v[i].desktop_id@,
        ) by {
            if j == v.len() - 1 {
                assert(v[j] == s.last());
                assert(v[i] == u[i]);
            } else {
                assert(v[i] == u[i] && v[j] == u[j]);
            }
        }
        assert(s =~= t.push(s.last()));
        assert(v.to_multiset() =~= s.to_multiset().insert(r));
    } else {
        let v = s.push(r);
        assert forall|i: int, j: int| 0 <= i < j < v.len() implies !key_lt(
            #[trigger] v[j].desktop_id@,
            #[trigger] v[i].desktop_id@,
        ) by {
            if j == v.len() - 1 {
                assert(v[j] == r);
                assert(v[i] == s[i]);
                if i < s.len() - 1 && key_lt(r.desktop_id@, s[i].desktop_id@) {
                    assert(!key_lt(s[s.len() - 1].desktop_id@, s[i].desktop_id@));
                    if s[i].desktop_id@ == s[s.len() - 1].desktop_id@ {
                    } else {
                        lemma_key_lt_total(s[i].desktop_id@, s[s.len() - 1].desktop_id@);
                        lemma_key_lt_transitive(
                            r.desktop_id@,
                            s[i].desktop_id@,
                            s[s.len() - 1].desktop_id@,
                        );
                    }
                }
            } else {
                assert(v[i] == s[i] && v[j] == s[j]);
            }
        }
    }
}

/// The stable sort by desktop id orders the records and keeps each of them.
pub proof fn lemma_sorted_records(s: Seq<InstanceRecord>)
    ensures
        sorted_by_id(sorted_records(s)),
        sorted_records(s).to_multiset() == s.to_multiset(),
        sorted_records(s).len() == s.len(),
    decreases s.len(),
{
    broadcast use vstd::seq_lib::group_to_multiset_ensures, vstd::multiset::group_multiset_axioms;

    if s.len() == 0 {
        assert(sorted_records(s).to_multiset() =~= s.to_multiset());
    } else {
        lemma_sorted_records(s.drop_last());
        lemma_insert_sorted(sorted_records(s.drop_last()), s.last());
        assert(s =~= s.drop_last().push(s.last()));
    }
}

/// The first record's desktop id comes before the second's.
fn id_before(a: &InstanceRecord, b: &InstanceRecord) -> (r: bool)
    ensures
        r == key_lt(a.desktop_id@, b.desktop_id@),
{
    let x = crate::text::chars_of(a.desktop_id.as_str());
    let y = crate::text::chars_of(b.desktop_id.as_str());
    chars_lt(x.as_slice(), y.as_slice())
}

/// Orders the live records by desktop id, as `prune` returns them.
pub fn sort_by_id(records: Vec<InstanceRecord>) -> (out: Vec<InstanceRecord>)
    ensures
        out@ == sorted_records(records@),
        sorted_by_id(out@),
        out@.to_multiset() == records@.to_multiset(),
{
    let mut out: Vec<InstanceRecord> = Vec::new();
    let mut i: usize = 0;
    assert(sorted_records(records@.take(0)) =~= out@);
    while i < records.len()
        invariant
            i <= records@.len(),
            out@ == sorted_records(records@.take(i as int)),
        decreases records.len() - i,
    {
        let r = copy_record(&records[i]);
        proof {
            lemma_sorted_records(records@.take(i as int));
        }
        let ghost before = out@;
        let mut j: usize = out.len();
        while j > 0 && id_before(&r, &out[j - 1])
            invariant
                j <= out@.len(),
                out@ == before,
                forall|k: int|
                    j <= k < out@.len() ==> key_lt(r.desktop_id@, #[trigger] out@[k].desktop_id@),
            decreases j,
        {
            j -= 1;
        }
        proof {
            lemma_insert_at(before, r, j as int);
            assert(records@.take(i + 1).drop_last() =~= records@.take(i as int));
        }
        out.insert(j, r);
        assert(out@ =~= before.take(j as int).push(r) + before.skip(j as int));
        i += 1;
    }
    assert(records@.take(records@.len() as int) =~= records@);
    proof {
        lemma_sorted_records(records@);
    }
    out
}


// ---------------------------------------------------------------------------
// The registry directory, markers and locks.
// ---------------------------------------------------------------------------

/// What is found at the registry root.
#[derive(Debug, Clone, Copy, PartialEq, Eq, Structural)]
pub enum RootState {
    Directory,
    Missing,
    NotDirectory,
}

/// Whether the registry root exists, for the operations that do not create
/// it: a missing root means an empty registry, and a root that is a symlink
/// or not a directory is refused.
pub fn existing_root(state: RootState, root: &str) -> (r: Result<bool, RegistryError>)
    ensures
        match state {
            RootState::Directory => r == Ok::<bool, RegistryError>(true),
            RootState::Missing => r == Ok::<bool, RegistryError>(false),
            RootState::NotDirectory => r matches Err(e) && e.0@ == "registry path "@ + root@
                + " must be a real directory"@,
        },
{
    match state {
        RootState::Directory => Ok(true),
        RootState::Missing => Ok(false),
        RootState::NotDirectory => Err(real_directory_error(root)),
    }
}

/// Whether the registry root must be created before files are written under
/// it; a root that is a symlink or not a directory is refused.
pub fn root_to_create(state: RootState, root: &str) -> (r: Result<bool, RegistryError>)
    ensures
        match state {
            RootState::Directory => r == Ok::<bool, RegistryError>(false),
            RootState::Missing => r == Ok::<bool, RegistryError>(true),
            RootState::NotDirectory => r matches Err(e) && e.0@ == "registry path "@ + root@
                + " must be a real directory"@,
        },
{
    match state {
        RootState::Directory => Ok(false),
        RootState::Missing => Ok(true),
        RootState::NotDirectory => Err(real_directory_error(root)),
    }
}

/// What a pending marker's entry holds.
#[derive(Debug, Clone, Copy, PartialEq, Eq, Structural)]
pub enum MarkerState {
    RegularFile,
    Missing,
    Other,
}

/// Whether a desktop's launch is pending, from what is found at its marker's
/// path: a regular file marks a pending launch, nothing marks none, and
/// anything else is refused.
pub open spec fn pending_outcome(state: MarkerState, marker: Seq<char>) -> Result<bool, Seq<char>> {
    match state {
        MarkerState::RegularFile => Ok(true),
        MarkerState::Missing => Ok(false),
        MarkerState::Other => Err("pending marker "@ + marker + " must be a regular file"@),
    }
}

pub open spec fn unresolved_text(desktop_id: Seq<char>, marker: Seq<char>) -> Seq<char> {
    "desktop "@ + debug_quoted(desktop_id) + " has an unresolved previous launch; inspect "@ + marker
        + " before retrying"@
}

/// Whether a desktop may be marked pending, from whether anything stands at
/// its marker's path: whatever stands there refuses the mark.
pub open spec fn mark_outcome(desktop_id: Seq<char>, marker: Seq<char>, present: bool) -> Result<
    (),
    Seq<char>,
> {
    if present {
        Err(unresolved_text(desktop_id, marker))
    } else {
        Ok(())
    }
}

/// Whether desktop's launch is pending, from what is found at its marker's
/// path.
pub fn pending_from(state: MarkerState, marker: &str) -> (r: Result<bool, RegistryError>)
    ensures
        match r {
            Ok(b) => pending_outcome(state, marker@) == Ok::<bool, Seq<char>>(b),
            Err(e) => pending_outcome(state, marker@) == Err::<bool, Seq<char>>(e.0@),
        },
{
    match state {
        MarkerState::RegularFile => Ok(true),
        MarkerState::Missing => Ok(false),
        MarkerState::Other => Err(
            RegistryError(join3("pending marker ", marker, " must be a regular file")),
        ),
    }
}

/// The refusal to mark a desktop pending while an earlier marker stands.
pub fn unresolved_launch_error(desktop_id: &str, marker: &str) -> (e: RegistryError)
    ensures
        e.0@ == unresolved_text(desktop_id@, marker@),
{
    let q = quoted(desktop_id);
    let head = join4("desktop ", q.as_str(), " has an unresolved previous launch; inspect ", marker);
    RegistryError(join2(head.as_str(), " before retrying"))
}

/// Whether the desktop may be marked pending, given whether anything is
/// found at its marker's path.
pub fn mark_pending_check(desktop_id: &str, marker: &str, present: bool) -> (r: Result<
    (),
    RegistryError,
>)
    ensures
        match r {
            Ok(()) => mark_outcome(desktop_id@, marker@, present) == Ok::<(), Seq<char>>(()),
            Err(e) => mark_outcome(desktop_id@, marker@, present) == Err::<(), Seq<char>>(e.0@),
        },
{
    if present {
        Err(unresolved_launch_error(desktop_id, marker))
    } else {
        Ok(())
    }
}

/// What a pending marker holds: the second at which the launch started.
pub fn pending_marker_text(started_at_unix: u64) -> (out: String)
    ensures
        out@ == "started_at_unix = "@ + crate::text::digits(started_at_unix as nat) + "\n"@,
{
    let digits = crate::text::digits_of(started_at_unix);
    let number = crate::text::string_of(digits.as_slice());
    join3("started_at_unix = ", number.as_str(), "\n")
}

/// After a try of the desktop's lock that found it held: wait and try again
/// while `elapsed_ms` is under `timeout_ms`, and give up once it is not.
pub fn lock_wait(desktop_id: &str, elapsed_ms: u128, timeout_ms: u128) -> (r: Result<
    (),
    RegistryError,
>)
    ensures
        elapsed_ms < timeout_ms ==> r is Ok,
        elapsed_ms >= timeout_ms ==> (r matches Err(e) && e.0@ == "timed out waiting for desktop "@
            + debug_quoted(desktop_id@) + " launch lock"@),
{
    if elapsed_ms >= timeout_ms {
        let q = quoted(desktop_id);
        return Err(RegistryError(join3("timed out waiting for desktop ", q.as_str(), " launch lock")));
    }
    Ok(())
}

/// `"could not read an entry in {root}: {error}"`.
pub fn entry_error(root: &str, error: &str) -> (e: RegistryError)
    ensures
        e.0@ == "could not read an entry in "@ + root@ + ": "@ + error@,
{
    RegistryError(join4("could not read an entry in ", root, ": ", error))
}

/// `"invalid registry record {path}: {error}"`.
pub fn invalid_record_error(path: &str, error: &str) -> (e: RegistryError)
    ensures
        e.0@ == "invalid registry record "@ + path@ + ": "@ + error@,
{
    RegistryError(join4("invalid registry record ", path, ": ", error))
}


/// The file a removal deletes, found from the registry root's state: nothing
/// when the root is missing, the desktop's `extension` file otherwise.
pub open spec fn removal_target(
    root: Seq<char>,
    state: RootState,
    desktop_id: Seq<char>,
    extension: Seq<char>,
    r: Result<Option<String>, RegistryError>,
) -> bool {
    match state {
        RootState::NotDirectory => r matches Err(e) && e.0@ == "registry path "@ + root
            + " must be a real directory"@,
        RootState::Missing => r matches Ok(None),
        RootState::Directory => if desktop_id_problem(desktop_id) is Some {
            r matches Err(e) && e.0@ == "invalid desktop id "@ + debug_quoted(desktop_id)
        } else {
            r matches Ok(Some(p)) && p@ == component_path_of(root, desktop_id, extension)
        },
    }
}

impl Registry {
    fn removal(&self, state: RootState, desktop_id: &str, extension: &str) -> (r: Result<
        Option<String>,
        RegistryError,
    >)
        ensures
            removal_target(self.root@, state, desktop_id@, extension@, r),
    {
        if !existing_root(state, self.root.as_str())? {
            return Ok(None);
        }
        let path = self.component_path(desktop_id, extension)?;
        Ok(Some(path))
    }

    /// Which file removing the desktop's record deletes (if it is present),
    /// given what is found at the root.
    pub fn remove(&self, desktop_id: &str, root: RootState) -> (r: Result<
        Option<String>,
        RegistryError,
    >)
        ensures
            removal_target(self.root@, root, desktop_id@, "toml"@, r),
    {
        self.removal(root, desktop_id, "toml")
    }

    /// Which file clearing the desktop's pending marker deletes (if it is
    /// present), given what is found at the root.
    pub fn clear_pending(&self, desktop_id: &str, root: RootState) -> (r: Result<
        Option<String>,
        RegistryError,
    >)
        ensures
            removal_target(self.root@, root, desktop_id@, "pending"@, r),
    {
        self.removal(root, desktop_id, "pending")
    }

    /// The live record of desktop `id`, from what pruning the registry gave;
    /// an invalid id is refused before anything else.
    pub fn live_for(&self, desktop_id: &str, pruned: Result<Vec<InstanceRecord>, RegistryError>) -> (r:
        Result<Option<InstanceRecord>, RegistryError>)
        ensures
            desktop_id_problem(desktop_id@) is Some ==> (r matches Err(e) && e.0@ == "invalid desktop id "@
                + debug_quoted(desktop_id@)),
            desktop_id_problem(desktop_id@) is None ==> match pruned {
                Err(p) => r matches Err(e) && e.0@ == p.0@,
                Ok(live) => match r {
                    Ok(Some(rec)) => exists|i: int|
                        first_record_at(live@, desktop_id@, i) && rec == live@[i],
                    Ok(None) => forall|i: int|
                        0 <= i < live@.len() ==> (#[trigger] live@[i]).desktop_id@ != desktop_id@,
                    Err(_) => false,
                },
            },
    {
        require_valid_id(desktop_id)?;
        match pruned {
            Err(e) => Err(e),
            Ok(live) => live_record_for(live, desktop_id),
        }
    }
}

/// The pending marker's life cycle on a real registry directory: clearing
/// (every time) removes exactly the path that `pending` inspects and
/// `mark_pending` creates. While a regular file stands there the desktop reads
/// as pending and a new mark is refused; once the path is empty it reads as
/// not pending and may be marked again.
pub proof fn law_cleared_marker_can_be_marked_again(
    root: Seq<char>,
    desktop_id: Seq<char>,
    cleared: Result<Option<String>, RegistryError>,
    cleared_again: Result<Option<String>, RegistryError>,
)
    requires
        desktop_id_problem(desktop_id) is None,
        removal_target(root, RootState::Directory, desktop_id, "pending"@, cleared),
        removal_target(root, RootState::Directory, desktop_id, "pending"@, cleared_again),
    ensures
        ({
            let marker = component_path_of(root, desktop_id, "pending"@);
            &&& cleared matches Ok(Some(p)) && p@ == marker
            &&& cleared_again matches Ok(Some(q)) && q@ == marker
            &&& pending_outcome(MarkerState::RegularFile, marker) == Ok::<bool, Seq<char>>(true)
            &&& mark_outcome(desktop_id, marker, true) is Err
            &&& pending_outcome(MarkerState::Missing, marker) == Ok::<bool, Seq<char>>(false)
            &&& mark_outcome(desktop_id, marker, false) is Ok
        }),
{
}

/// `"could not {action} {path}: {error}"`.
pub fn io_error(action: &str, path: &str, error: &str) -> (e: RegistryError)
    ensures
        e.0@ == "could not "@ + action@ + " "@ + path@ + ": "@ + error@,
{
    let head = join4("could not ", action, " ", path);
    let text = join3(head.as_str(), ": ", error);
    RegistryError(text)
}

pub fn real_directory_error(path: &str) -> (e: RegistryError)
    ensures
        e.0@ == "registry path "@ + path@ + " must be a real directory"@,
{
    RegistryError(join3("registry path ", path, " must be a real directory"))
}

} // verus!
