use crate::config::Config;
use crate::file_ops::{
    choice, dest_name, extension_or_default, is_excluded, plan_matches, selection, Choice,
    CopyPlan, Selection, SourceEntry,
};
use crate::text::{decimal, digit_char};
use vstd::prelude::*;

verus! {

/// The number of regular files among `entries`.
pub open spec fn file_count(entries: Seq<SourceEntry>) -> nat
    decreases entries.len(),
{
    if entries.len() == 0 {
        0
    } else {
        file_count(entries.drop_last()) + if entries.last().is_file {
            1nat
        } else {
            0nat
        }
    }
}

/// Whether two settings select alike: same threshold, prefix and exclusions.
pub open spec fn same_rules(a: Config, b: Config) -> bool {
    &&& a.min_size_kb == b.min_size_kb
    &&& a.prefix@ == b.prefix@
    &&& a.excluded() == b.excluded()
}

/// Every entry taken by a selection is a regular file of at least the threshold,
/// with a valid name whose extension is not excluded; the entries are taken in
/// listing order, and the one taken in place `k` is named with the number `k + 1`.
pub proof fn lemma_selection_shape(cfg: Config, es: Seq<SourceEntry>)
    ensures
        ({
            let picks = selection(cfg, es).picks;
            &&& forall|k: int|
                0 <= k < picks.len() ==> {
                    let i = #[trigger] picks[k].0;
                    &&& 0 <= i < es.len()
                    &&& es[i].is_file
                    &&& es[i].len >= cfg.threshold()
                    &&& es[i].name is Some
                    &&& !is_excluded(cfg, es[i].name->0@)
                    &&& picks[k].1 == dest_name(
                        cfg.prefix@,
                        (k + 1) as nat,
                        extension_or_default(es[i].name->0@),
                    )
                }
            &&& forall|k1: int, k2: int|
                0 <= k1 < k2 < picks.len() ==> #[trigger] picks[k1].0 < #[trigger] picks[k2].0
        }),
    decreases es.len(),
{
    if es.len() > 0 {
        let prev = es.drop_last();
        lemma_selection_shape(cfg, prev);
        let picks = selection(cfg, es).picks;
        let old_picks = selection(cfg, prev).picks;
        assert forall|k: int| 0 <= k < old_picks.len() implies es[#[trigger] old_picks[k].0]
            == prev[old_picks[k].0] by {}
        if selection(cfg, prev).stopped_at is None {
            match choice(cfg, old_picks.len(), es.last()) {
                Choice::Take(d) => {
                    assert(picks == old_picks.push((es.len() - 1, d)));
                },
                _ => {},
            }
        }
    }
}

/// An entry below the size threshold is never taken, so never copied nor counted.
pub proof fn lemma_small_files_never_taken(cfg: Config, es: Seq<SourceEntry>, i: int)
    requires
        0 <= i < es.len(),
        es[i].len < cfg.threshold(),
    ensures
        forall|k: int|
            0 <= k < selection(cfg, es).picks.len() ==> #[trigger] selection(cfg, es).picks[k].0
                != i,
{
    lemma_selection_shape(cfg, es);
}

/// An entry whose extension is excluded, whatever its case, is never taken.
pub proof fn lemma_excluded_never_taken(cfg: Config, es: Seq<SourceEntry>, i: int)
    requires
        0 <= i < es.len(),
        es[i].name is Some,
        is_excluded(cfg, es[i].name->0@),
    ensures
        forall|k: int|
            0 <= k < selection(cfg, es).picks.len() ==> #[trigger] selection(cfg, es).picks[k].0
                != i,
{
    lemma_selection_shape(cfg, es);
}

/// Where every regular file is at least the threshold, has a valid name and an
/// extension that is not excluded, every regular file is taken, the count is the
/// number of regular files, and the names run `{prefix}_1` to `{prefix}_N`.
pub proof fn lemma_all_large_files_taken(cfg: Config, es: Seq<SourceEntry>)
    requires
        forall|i: int|
            0 <= i < es.len() && (#[trigger] es[i]).is_file ==> {
                &&& es[i].len >= cfg.threshold()
                &&& es[i].name is Some
                &&& !is_excluded(cfg, es[i].name->0@)
            },
    ensures
        selection(cfg, es).stopped_at is None,
        selection(cfg, es).picks.len() == file_count(es),
        forall|i: int|
            0 <= i < es.len() && (#[trigger] es[i]).is_file ==> exists|k: int|
                0 <= k < selection(cfg, es).picks.len() && #[trigger] selection(
                    cfg,
                    es,
                ).picks[k].0 == i,
        forall|k: int|
            0 <= k < selection(cfg, es).picks.len() ==> (#[trigger] selection(cfg, es).picks[k]).1
                == dest_name(
                cfg.prefix@,
                (k + 1) as nat,
                extension_or_default(es[selection(cfg, es).picks[k].0].name->0@),
            ),
    decreases es.len(),
{
    lemma_selection_shape(cfg, es);
    if es.len() > 0 {
        let prev = es.drop_last();
        assert forall|i: int| 0 <= i < prev.len() && (#[trigger] prev[i]).is_file implies {
            &&& prev[i].len >= cfg.threshold()
            &&& prev[i].name is Some
            &&& !is_excluded(cfg, prev[i].name->0@)
        } by {
            assert(prev[i] == es[i]);
        }
        lemma_all_large_files_taken(cfg, prev);
        let old_picks = selection(cfg, prev).picks;
        let picks = selection(cfg, es).picks;
        let last = es.last();
        assert(es[es.len() - 1] == last);
        if last.is_file {
            let d = dest_name(cfg.prefix@, old_picks.len() + 1, extension_or_default(last.name->0@));
            assert(choice(cfg, old_picks.len(), last) == Choice::Take(d));
            assert(picks == old_picks.push((es.len() - 1, d)));
            assert forall|i: int| 0 <= i < es.len() && (#[trigger] es[i]).is_file implies exists|
                k: int,
            | 0 <= k < picks.len() && #[trigger] picks[k].0 == i by {
                if i == es.len() - 1 {
                    assert(picks[old_picks.len() as int].0 == i);
                } else {
                    assert(prev[i] == es[i]);
                    let k = choose|k: int| 0 <= k < old_picks.len() && #[trigger] old_picks[k].0 == i;
                    assert(picks[k] == old_picks[k]);
                }
            }
        } else {
            assert(picks == old_picks);
            assert forall|i: int| 0 <= i < es.len() && (#[trigger] es[i]).is_file implies exists|
                k: int,
            | 0 <= k < picks.len() && #[trigger] picks[k].0 == i by {
                assert(prev[i] == es[i]);
            }
        }
    }
}

/// A dry run takes the same entries under the same names as a normal run with the
/// same threshold, prefix and exclusions, so it reports the same count; and no
/// copy in the plan of a dry run writes anything.
pub proof fn lemma_dry_run_matches_normal_run(normal: Config, dry: Config, es: Seq<SourceEntry>)
    requires
        same_rules(normal, dry),
    ensures
        selection(dry, es) == selection(normal, es),
        forall|p: CopyPlan|
            dry.dry_run && #[trigger] plan_matches(dry, es, p) ==> forall|k: int|
                0 <= k < p.copies@.len() ==> !(#[trigger] p.copies@[k]).write,
    decreases es.len(),
{
    if es.len() > 0 {
        lemma_dry_run_matches_normal_run(normal, dry, es.drop_last());
        let n = selection(normal, es.drop_last()).picks.len();
        assert(choice(normal, n, es.last()) == choice(dry, n, es.last()));
    }
}

proof fn lemma_digit_char_injective(a: nat, b: nat)
    requires
        a < 10,
        b < 10,
        digit_char(a) == digit_char(b),
    ensures
        a == b,
{
}

proof fn lemma_decimal_digits(n: nat)
    ensures
        decimal(n).len() >= 1,
        n >= 10 ==> decimal(n).len() >= 2,
        forall|j: int| 0 <= j < decimal(n).len() ==> #[trigger] decimal(n)[j] != '.',
    decreases n,
{
    if n >= 10 {
        lemma_decimal_digits(n / 10);
    }
}

proof fn lemma_decimal_injective(a: nat, b: nat)
    requires
        decimal(a) == decimal(b),
    ensures
        a == b,
    decreases a,
{
    lemma_decimal_digits(a);
    lemma_decimal_digits(b);
    if a < 10 && b < 10 {
        assert(decimal(a)[0] == digit_char(a));
        assert(decimal(b)[0] == digit_char(b));
        lemma_digit_char_injective(a, b);
    } else if a >= 10 && b >= 10 {
        assert(decimal(a).last() == digit_char(a % 10));
        assert(decimal(b).last() == digit_char(b % 10));
        lemma_digit_char_injective(a % 10, b % 10);
        assert(decimal(a).drop_last() =~= decimal(a / 10));
        assert(decimal(b).drop_last() =~= decimal(b / 10));
        lemma_decimal_injective(a / 10, b / 10);
    }
}

/// Two destination names with the same prefix are equal only with equal numbers.
pub proof fn lemma_dest_name_number(prefix: Seq<char>, a: nat, ea: Seq<char>, b: nat, eb: Seq<char>)
    requires
        dest_name(prefix, a, ea) == dest_name(prefix, b, eb),
    ensures
        a == b,
{
    let x = dest_name(prefix, a, ea);
    let da = decimal(a);
    let db = decimal(b);
    let start = prefix.len() + 1int;
    lemma_decimal_digits(a);
    lemma_decimal_digits(b);
    assert forall|j: int| 0 <= j < da.len() implies x[start + j] == da[j] by {}
    assert forall|j: int| 0 <= j < db.len() implies x[start + j] == db[j] by {}
    assert(x[start + da.len() as int] == '.');
    assert(x[start + db.len() as int] == '.');
    if da.len() < db.len() {
        assert(x[start + da.len() as int] == db[da.len() as int]);
    } else if db.len() < da.len() {
        assert(x[start + db.len() as int] == da[db.len() as int]);
    } else {
        assert(da =~= db);
        lemma_decimal_injective(a, b);
    }
}

/// The destination names of a selection are pairwise distinct, since each
/// carries its own sequence number.
pub proof fn lemma_dest_names_distinct(cfg: Config, es: Seq<SourceEntry>)
    ensures
        forall|k1: int, k2: int|
            0 <= k1 < selection(cfg, es).picks.len() && 0 <= k2 < selection(cfg, es).picks.len()
                && k1 != k2 ==> #[trigger] selection(cfg, es).picks[k1].1 != #[trigger] selection(
                cfg,
                es,
            ).picks[k2].1,
{
    lemma_selection_shape(cfg, es);
    let picks = selection(cfg, es).picks;
    assert forall|k1: int, k2: int|
        0 <= k1 < picks.len() && 0 <= k2 < picks.len() && k1 != k2 implies #[trigger] picks[k1].1
        != #[trigger] picks[k2].1 by {
        if picks[k1].1 == picks[k2].1 {
            let e1 = extension_or_default(es[picks[k1].0].name->0@);
            let e2 = extension_or_default(es[picks[k2].0].name->0@);
            lemma_dest_name_number(cfg.prefix@, (k1 + 1) as nat, e1, (k2 + 1) as nat, e2);
        }
    }
}

/// Whether the filter chain skips `e` whatever was taken before it: not a
/// regular file, below the threshold, or with a valid name whose extension is
/// excluded.
pub open spec fn always_skipped(cfg: Config, e: SourceEntry) -> bool {
    ||| !e.is_file
    ||| e.len < cfg.threshold()
    ||| (e.name is Some && is_excluded(cfg, e.name->0@))
}

/// Index `i` once an entry is inserted at `j`.
pub open spec fn shift(i: int, j: int) -> int {
    if i < j {
        i
    } else {
        i + 1
    }
}

/// Whether `after` is `before` with every index at or past `j` moved up by one:
/// the same count, the same names in the same order, the same entries.
pub open spec fn shifted(before: Selection, after: Selection, j: int) -> bool {
    &&& after.picks.len() == before.picks.len()
    &&& forall|k: int|
        0 <= k < before.picks.len() ==> #[trigger] after.picks[k] == (
            shift(before.picks[k].0, j),
            before.picks[k].1,
        )
    &&& after.stopped_at == match before.stopped_at {
        Some(i) => Some(shift(i, j)),
        None => None,
    }
}

proof fn lemma_stop_in_range(cfg: Config, es: Seq<SourceEntry>)
    ensures
        selection(cfg, es).stopped_at matches Some(i) ==> 0 <= i < es.len(),
    decreases es.len(),
{
    if es.len() > 0 {
        lemma_stop_in_range(cfg, es.drop_last());
    }
}

/// Inserting anywhere an entry that the chain always skips changes nothing:
/// the same entries are taken under the same names, and the count is the same.
pub proof fn lemma_skipped_entry_changes_nothing(
    cfg: Config,
    es: Seq<SourceEntry>,
    j: int,
    e: SourceEntry,
)
    requires
        0 <= j <= es.len(),
        always_skipped(cfg, e),
    ensures
        shifted(selection(cfg, es), selection(cfg, es.insert(j, e)), j),
    decreases es.len(),
{
    let es2 = es.insert(j, e);
    let sel = selection(cfg, es);
    if j == es.len() {
        assert(es2.drop_last() =~= es);
        assert(es2.last() == e);
        lemma_selection_shape(cfg, es);
        lemma_stop_in_range(cfg, es);
        assert(selection(cfg, es2) == sel);
        assert forall|k: int| 0 <= k < sel.picks.len() implies #[trigger] sel.picks[k] == (
            shift(sel.picks[k].0, j),
            sel.picks[k].1,
        ) by {}
    } else {
        let prev = es.drop_last();
        assert(es2.drop_last() =~= prev.insert(j, e));
        assert(es2.last() == es.last());
        lemma_skipped_entry_changes_nothing(cfg, prev, j, e);
        let before = selection(cfg, prev);
        let after = selection(cfg, prev.insert(j, e));
        assert(shift(es.len() - 1, j) == es2.len() - 1);
        if before.stopped_at is None {
            match choice(cfg, before.picks.len(), es.last()) {
                Choice::Take(d) => {
                    assert(sel.picks == before.picks.push((es.len() - 1, d)));
                    assert(selection(cfg, es2).picks == after.picks.push((es2.len() - 1, d)));
                },
                _ => {},
            }
        }
    }
}

/// Adding a file below the size threshold anywhere in the listing changes
/// neither the count nor the names nor which files are copied.
pub proof fn lemma_small_file_changes_nothing(cfg: Config, es: Seq<SourceEntry>, j: int, e: SourceEntry)
    requires
        0 <= j <= es.len(),
        e.len < cfg.threshold(),
    ensures
        shifted(selection(cfg, es), selection(cfg, es.insert(j, e)), j),
{
    lemma_skipped_entry_changes_nothing(cfg, es, j, e);
}

/// Removing a file whose extension is excluded changes neither the count nor
/// the names nor which other files are copied.
pub proof fn lemma_excluded_file_changes_nothing(cfg: Config, es: Seq<SourceEntry>, j: int)
    requires
        0 <= j < es.len(),
        es[j].name is Some,
        is_excluded(cfg, es[j].name->0@),
    ensures
        shifted(selection(cfg, es.remove(j)), selection(cfg, es), j),
{
    assert(es.remove(j).insert(j, es[j]) =~= es);
    lemma_skipped_entry_changes_nothing(cfg, es.remove(j), j, es[j]);
}

} // verus!
