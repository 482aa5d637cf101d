use crate::config::Config;
use crate::error::ExtractError;
use crate::text::{decimal, decimal_text, lower_of, lowercase};
use vstd::prelude::*;

verus! {

/// One entry of the source directory, as read from the file system.
#[derive(Debug)]
pub struct SourceEntry {
    /// The file name, or `None` where it is not valid text.
    pub name: Option<String>,
    /// The size in bytes.
    pub len: u64,
    /// Whether the entry is a regular file.
    pub is_file: bool,
}

/// The index of the last `.` in `s`.
pub open spec fn last_dot(s: Seq<char>) -> Option<int>
    decreases s.len(),
{
    if s.len() == 0 {
        None
    } else if s.last() == '.' {
        Some(s.len() - 1)
    } else {
        last_dot(s.drop_last())
    }
}

/// The extension of a file name: what follows its last `.`, where that dot
/// is not the first character; `..` has none.
pub open spec fn name_extension(name: Seq<char>) -> Option<Seq<char>> {
    if name == seq!['.', '.'] {
        None
    } else {
        match last_dot(name) {
            Some(i) => if i > 0 {
                Some(name.subrange(i + 1, name.len() as int))
            } else {
                None
            },
            None => None,
        }
    }
}

/// The extension used for a file name, `jpg` where it has none.
pub open spec fn extension_or_default(name: Seq<char>) -> Seq<char> {
    match name_extension(name) {
        Some(e) => e,
        None => seq!['j', 'p', 'g'],
    }
}

/// The destination name `{prefix}_{number}.{extension}`.
pub open spec fn dest_name(prefix: Seq<char>, number: nat, ext: Seq<char>) -> Seq<char> {
    prefix + seq!['_'] + decimal(number) + seq!['.'] + ext
}

/// Whether the settings exclude a file of this name by its extension.
pub open spec fn is_excluded(cfg: Config, name: Seq<char>) -> bool {
    cfg.excluded().contains(lower_of(extension_or_default(name)))
}

/// What the selection does with one entry.
pub enum Choice {
    /// Not a regular file: skipped.
    NotFile,
    /// Below the size threshold: skipped.
    TooSmall,
    /// The name is not valid text: the run stops.
    BadName,
    /// The extension is excluded: skipped.
    Excluded,
    /// Taken, under this destination name.
    Take(Seq<char>),
}

/// The filter chain on one entry, when `taken` entries were taken before it.
pub open spec fn choice(cfg: Config, taken: nat, e: SourceEntry) -> Choice {
    if !e.is_file {
        Choice::NotFile
    } else if e.len < cfg.threshold() {
        Choice::TooSmall
    } else {
        match e.name {
            None => Choice::BadName,
            Some(n) => if is_excluded(cfg, n@) {
                Choice::Excluded
            } else {
                Choice::Take(dest_name(cfg.prefix@, taken + 1, extension_or_default(n@)))
            },
        }
    }
}

/// What to do with one entry.
#[derive(Debug)]
pub enum EntryAction {
    /// Not a regular file: nothing to do.
    SkipNotFile,
    /// Below the size threshold.
    SkipTooSmall,
    /// The extension is excluded.
    SkipExcluded,
    /// Copy the entry under this name.
    Copy(String),
    /// Report the copy under this name, but write nothing.
    Simulate(String),
}

/// Whether `a` carries out `choice(cfg, taken, e)`.
pub open spec fn action_matches(cfg: Config, taken: nat, e: SourceEntry, a: EntryAction) -> bool {
    match choice(cfg, taken, e) {
        Choice::NotFile => a is SkipNotFile,
        Choice::TooSmall => a is SkipTooSmall,
        Choice::Excluded => a is SkipExcluded,
        Choice::Take(d) => if cfg.dry_run {
            a matches EntryAction::Simulate(x) && x@ == d
        } else {
            a matches EntryAction::Copy(x) && x@ == d
        },
        Choice::BadName => false,
    }
}

proof fn lemma_last_dot_prefix(s: Seq<char>, i: int)
    requires
        0 <= i <= s.len(),
        forall|j: int| i <= j < s.len() ==> s[j] != '.',
    ensures
        last_dot(s) == last_dot(s.subrange(0, i)),
    decreases s.len() - i,
{
    if i < s.len() {
        lemma_last_dot_prefix(s.drop_last(), i);
        assert(s.drop_last().subrange(0, i) =~= s.subrange(0, i));
    } else {
        assert(s.subrange(0, i) =~= s);
    }
}

/// The extension of a file name, as `Path::extension` finds it.
pub fn file_extension(name: &str) -> (r: Option<&str>)
    ensures
        r is Some == name_extension(name@) is Some,
        r is Some ==> r->0@ == name_extension(name@)->0,
{
    let n = name.unicode_len();
    if n == 2 && name.get_char(0) == '.' && name.get_char(1) == '.' {
        assert(name@ =~= seq!['.', '.']);
        return None;
    }
    assert(name@ != seq!['.', '.']);
    let mut i: usize = n;
    while i > 0
        invariant
            i <= n == name@.len(),
            name@ != seq!['.', '.'],
            forall|j: int| i <= j < n ==> name@[j] != '.',
        decreases i,
    {
        if name.get_char(i - 1) == '.' {
            proof {
                lemma_last_dot_prefix(name@, i as int);
                let prefix = name@.subrange(0, i as int);
                assert(prefix.last() == '.');
                assert(last_dot(prefix) == Some(i - 1));
            }
            if i - 1 == 0 {
                return None;
            }
            return Some(name.substring_char(i, n));
        }
        i = i - 1;
    }
    proof {
        lemma_last_dot_prefix(name@, 0);
    }
    None
}

/// The destination name `{prefix}_{number}.{ext}`.
pub fn make_dest_name(prefix: &str, number: u64, ext: &str) -> (r: String)
    ensures
        r@ == dest_name(prefix@, number as nat, ext@),
{
    proof {
        reveal_strlit("_");
        reveal_strlit(".");
    }
    let mut r = String::from_str(prefix);
    r.append("_");
    let digits = decimal_text(number);
    r.append(digits.as_str());
    r.append(".");
    r.append(ext);
    r
}

/// Whether the excluded extensions hold `lower_ext`, an extension already lower-cased.
pub fn excludes_folded(excluded: &Vec<String>, lower_ext: &String) -> (r: bool)
    ensures
        r == excluded@.map_values(|e: String| e@).contains(lower_ext@),
{
    let ghost views = excluded@.map_values(|e: String| e@);
    let mut i: usize = 0;
    while i < excluded.len()
        invariant
            i <= excluded@.len(),
            views == excluded@.map_values(|e: String| e@),
            forall|j: int| 0 <= j < i ==> views[j] != lower_ext@,
        decreases excluded@.len() - i,
    {
        if excluded[i] == *lower_ext {
            assert(views[i as int] == lower_ext@);
            return true;
        }
        i = i + 1;
    }
    false
}

/// Whether the excluded extensions hold `ext` once lower-cased.
fn excludes(excluded: &Vec<String>, ext: &str) -> (r: bool)
    ensures
        r == excluded@.map_values(|e: String| e@).contains(lower_of(ext@)),
{
    let lower = lowercase(ext);
    excludes_folded(excluded, &lower)
}

/// Runs the filter chain on one entry, `copied` entries having been taken before it:
/// type, then size, then name, then extension.
///
/// A mismatch of type, size or extension only skips the entry, since a cache
/// directory holds all kinds of files; a name that is not valid text fails the
/// run, since it points at bad data rather than at ordinary contents.
pub fn decide_entry(config: &Config, copied: u64, entry: &SourceEntry) -> (r: Result<
    EntryAction,
    ExtractError,
>)
    requires
        copied < u64::MAX,
    ensures
        match r {
            Ok(a) => action_matches(*config, copied as nat, *entry, a),
            Err(e) => choice(*config, copied as nat, *entry) is BadName && e is InvalidFileName,
        },
{
    if !entry.is_file {
        return Ok(EntryAction::SkipNotFile);
    }
    let large_enough = match config.min_size_kb.checked_mul(1024) {
        Some(threshold) => entry.len >= threshold,
        None => false,
    };
    if !large_enough {
        return Ok(EntryAction::SkipTooSmall);
    }
    let name = match &entry.name {
        Some(n) => n,
        None => return Err(ExtractError::InvalidFileName),
    };
    proof {
        reveal_strlit("jpg");
    }
    let ext = match file_extension(name.as_str()) {
        Some(e) => e,
        None => "jpg",
    };
    assert(ext@ == extension_or_default(name@));
    let excluded = config.excluded_extensions();
    if excludes(&excluded, ext) {
        return Ok(EntryAction::SkipExcluded);
    }
    let dest = make_dest_name(config.prefix.as_str(), copied + 1, ext);
    if config.dry_run {
        Ok(EntryAction::Simulate(dest))
    } else {
        Ok(EntryAction::Copy(dest))
    }
}

/// One step of a run over a directory: the action for `entry`, `copied` entries
/// having been taken before it, and the count once the action is done.
pub fn next_step(config: &Config, copied: u64, entry: &SourceEntry) -> (r: Result<
    (EntryAction, u64),
    ExtractError,
>)
    requires
        copied < u64::MAX,
    ensures
        match r {
            Ok((a, n)) => {
                &&& action_matches(*config, copied as nat, *entry, a)
                &&& n == if a is Copy || a is Simulate {
                    copied + 1
                } else {
                    copied as int
                }
            },
            Err(e) => choice(*config, copied as nat, *entry) is BadName && e is InvalidFileName,
        },
{
    let a = decide_entry(config, copied, entry)?;
    let n = match a {
        EntryAction::Copy(_) | EntryAction::Simulate(_) => copied + 1,
        _ => copied,
    };
    Ok((a, n))
}

/// Whether a copy is logged: always when verbose, else the first ten and every tenth after.
pub fn reports_copy(verbose: bool, copied_before: u64) -> (r: bool)
    ensures
        r == (verbose || copied_before < 10 || copied_before % 10 == 0),
{
    verbose || copied_before < 10 || copied_before % 10 == 0
}

/// The selection over a directory listing: the entries taken, by index and
/// with their destination names, and the entry where a bad name stopped it.
pub struct Selection {
    pub picks: Seq<(int, Seq<char>)>,
    pub stopped_at: Option<int>,
}

/// The filter chain run over the entries in order, numbering the entries taken
/// from one and stopping at the first candidate whose name is not valid text.
pub open spec fn selection(cfg: Config, entries: Seq<SourceEntry>) -> Selection
    decreases entries.len(),
{
    if entries.len() == 0 {
        Selection { picks: Seq::empty(), stopped_at: None }
    } else {
        let prev = selection(cfg, entries.drop_last());
        if prev.stopped_at is Some {
            prev
        } else {
            let i = entries.len() - 1;
            match choice(cfg, prev.picks.len(), entries.last()) {
                Choice::BadName => Selection { picks: prev.picks, stopped_at: Some(i) },
                Choice::Take(d) => Selection { picks: prev.picks.push((i, d)), stopped_at: None },
                _ => prev,
            }
        }
    }
}

/// One copy that a run makes, or only reports in a dry run.
#[derive(Debug)]
pub struct PlannedCopy {
    /// The index of the source entry.
    pub source: usize,
    /// The destination file name.
    pub dest: String,
    /// Whether the bytes are written.
    pub write: bool,
}

/// The copies of a run, in order, and the entry with a bad name that ends it early.
#[derive(Debug)]
pub struct CopyPlan {
    pub copies: Vec<PlannedCopy>,
    pub invalid_name_at: Option<usize>,
}

/// Whether `copies` carry out `picks` under the settings.
pub open spec fn copies_agree(cfg: Config, picks: Seq<(int, Seq<char>)>, copies: Seq<PlannedCopy>) -> bool {
    &&& copies.len() == picks.len()
    &&& forall|k: int|
        0 <= k < picks.len() ==> {
            &&& (#[trigger] copies[k]).source == picks[k].0
            &&& copies[k].dest@ == picks[k].1
            &&& copies[k].write == !cfg.dry_run
        }
}

/// Whether `plan` carries out the selection over `entries`.
pub open spec fn plan_matches(cfg: Config, entries: Seq<SourceEntry>, plan: CopyPlan) -> bool {
    let sel = selection(cfg, entries);
    &&& copies_agree(cfg, sel.picks, plan.copies@)
    &&& match plan.invalid_name_at {
        Some(i) => sel.stopped_at == Some(i as int),
        None => sel.stopped_at is None,
    }
}

proof fn lemma_stop_is_final(cfg: Config, es: Seq<SourceEntry>, j: int)
    requires
        0 <= j <= es.len(),
        selection(cfg, es.subrange(0, j)).stopped_at is Some,
    ensures
        selection(cfg, es) == selection(cfg, es.subrange(0, j)),
    decreases es.len() - j,
{
    if j < es.len() {
        assert(es.drop_last().subrange(0, j) =~= es.subrange(0, j));
        lemma_stop_is_final(cfg, es.drop_last(), j);
    } else {
        assert(es.subrange(0, j) =~= es);
    }
}

/// Plans the run over a directory listing: which entries are copied, under
/// which names, and whether a bad name stops the run.
pub fn plan_copies(config: &Config, entries: &Vec<SourceEntry>) -> (r: CopyPlan)
    ensures
        plan_matches(*config, entries@, r),
{
    let mut copies: Vec<PlannedCopy> = Vec::new();
    let mut i: usize = 0;
    assert(entries@.subrange(0, 0) =~= Seq::<SourceEntry>::empty());
    while i < entries.len()
        invariant
            i <= entries@.len(),
            copies@.len() <= i,
            selection(*config, entries@.subrange(0, i as int)).stopped_at is None,
            copies_agree(*config, selection(*config, entries@.subrange(0, i as int)).picks, copies@),
        decreases entries@.len() - i,
    {
        let ghost prev = selection(*config, entries@.subrange(0, i as int));
        let ghost upto = entries@.subrange(0, i + 1);
        assert(upto.drop_last() =~= entries@.subrange(0, i as int));
        assert(upto.last() == entries@[i as int]);
        let copied = copies.len() as u64;
        match decide_entry(config, copied, &entries[i]) {
            Err(_) => {
                proof {
                    lemma_stop_is_final(*config, entries@, i + 1);
                }
                return CopyPlan { copies, invalid_name_at: Some(i) };
            },
            Ok(EntryAction::Copy(dest)) => {
                copies.push(PlannedCopy { source: i, dest, write: true });
            },
            Ok(EntryAction::Simulate(dest)) => {
                copies.push(PlannedCopy { source: i, dest, write: false });
            },
            Ok(_) => {},
        }
        i = i + 1;
    }
    assert(entries@.subrange(0, i as int) =~= entries@);
    CopyPlan { copies, invalid_name_at: None }
}

} // verus!
