//! The conversion run over a parsed history: translating every command
//! (unless conversion is switched off), rendering each entry as a
//! destination-format record, counting the processed entries, and listing
//! the entries whose command the translation changed.

use vstd::prelude::*;
use vstd::string::*;
use crate::reader::{entry_pairs, HistoryEntry};
use crate::text::contains_sub;
use crate::translate::{lemma_translate_identity, spec_translate, translate};

verus! {

/// What a run reports: one destination-format record per entry, the
/// (original, translated) pair of every entry whose command changed, and
/// the number of entries processed.
pub struct RunReport {
    pub records: Vec<String>,
    pub changed: Vec<(String, String)>,
    pub processed: usize,
}

/// The command that is written out for a source command: the command
/// itself when conversion is switched off, its translation otherwise.
pub open spec fn out_command(cmd: Seq<char>, no_convert: bool) -> Seq<char> {
    if no_convert {
        cmd
    } else {
        spec_translate(cmd)
    }
}

/// The destination-format record of one entry: a command line and a
/// timestamp line.
pub open spec fn record_text(cmd: Seq<char>, ts: Seq<char>) -> Seq<char> {
    "- cmd: "@ + cmd + "\n"@ + "  when: "@ + ts + "\n"@
}

/// The (original, converted) pairs of the entries whose command the run
/// changes, in entry order.  `es` holds (timestamp, command) pairs.
pub open spec fn changed_pairs(es: Seq<(Seq<char>, Seq<char>)>, no_convert: bool) -> Seq<
    (Seq<char>, Seq<char>),
>
    decreases es.len(),
{
    if es.len() == 0 {
        Seq::empty()
    } else {
        let rest = changed_pairs(es.drop_last(), no_convert);
        let e = es.last();
        if out_command(e.1, no_convert) != e.1 {
            rest.push((e.1, out_command(e.1, no_convert)))
        } else {
            rest
        }
    }
}

/// The views of a vector of string pairs.
pub open spec fn pair_views(ps: Seq<(String, String)>) -> Seq<(Seq<char>, Seq<char>)> {
    ps.map_values(|p: (String, String)| (p.0@, p.1@))
}

/// Renders one entry as its two-line destination-format record.
pub fn render_record(cmd: &String, ts: &String) -> (r: String)
    ensures
        r@ == record_text(cmd@, ts@),
{
    let mut r = String::from_str("- cmd: ");
    r.append(cmd.as_str());
    r.append("\n");
    r.append("  when: ");
    r.append(ts.as_str());
    r.append("\n");
    proof {
        assert(r@ =~= record_text(cmd@, ts@));
    }
    r
}

/// Runs the conversion over a parsed history: every entry is rendered as a
/// record (with its command translated unless `no_convert` is set), every
/// entry is counted, and every entry whose command changed is listed with
/// its original and converted command.
pub fn convert_entries(entries: &Vec<HistoryEntry>, no_convert: bool) -> (r: RunReport)
    ensures
        r.processed == entries@.len(),
        r.records@.len() == entries@.len(),
        forall|i: int|
            0 <= i < entries@.len() ==> r.records@[i]@ == record_text(
                out_command(entries@[i].command@, no_convert),
                entries@[i].timestamp@,
            ),
        pair_views(r.changed@) == changed_pairs(entry_pairs(entries@), no_convert),
{
    let mut records: Vec<String> = Vec::new();
    let mut changed: Vec<(String, String)> = Vec::new();
    let mut idx: usize = 0;
    proof {
        assert(entry_pairs(entries@.take(0)) =~= Seq::<(Seq<char>, Seq<char>)>::empty());
        assert(pair_views(changed@) =~= Seq::<(Seq<char>, Seq<char>)>::empty());
    }
    while idx < entries.len()
        invariant
            idx <= entries@.len(),
            records@.len() == idx,
            forall|i: int|
                0 <= i < idx ==> records@[i]@ == record_text(
                    out_command(entries@[i].command@, no_convert),
                    entries@[i].timestamp@,
                ),
            pair_views(changed@) == changed_pairs(
                entry_pairs(entries@.take(idx as int)),
                no_convert,
            ),
        decreases entries@.len() - idx,
    {
        let e = &entries[idx];
        let fish: String = if no_convert {
            e.command.clone()
        } else {
            translate(e.command.as_str())
        };
        let rec = render_record(&fish, &e.timestamp);
        records.push(rec);
        let ghost pairs_before = pair_views(changed@);
        if !(e.command == fish) {
            changed.push((e.command.clone(), fish.clone()));
            proof {
                assert(pair_views(changed@) =~= pairs_before.push((e.command@, fish@)));
            }
        }
        proof {
            let all = entry_pairs(entries@.take(idx as int + 1));
            assert(all.drop_last() =~= entry_pairs(entries@.take(idx as int)));
            assert(all.last() == (e.timestamp@, e.command@));
        }
        idx = idx + 1;
    }
    proof {
        assert(entries@.take(entries@.len() as int) =~= entries@);
    }
    RunReport { records, changed, processed: idx }
}

/// A run in which no command is altered reports no changed entries.
pub proof fn lemma_changed_pairs_empty(es: Seq<(Seq<char>, Seq<char>)>, no_convert: bool)
    requires
        forall|i: int| 0 <= i < es.len() ==> out_command(#[trigger] es[i].1, no_convert) == es[i].1,
    ensures
        changed_pairs(es, no_convert) == Seq::<(Seq<char>, Seq<char>)>::empty(),
    decreases es.len(),
{
    if es.len() > 0 {
        assert(es.last() == es[es.len() - 1]);
        lemma_changed_pairs_empty(es.drop_last(), no_convert);
    }
}

/// A run with conversion switched off reports no changed entries, whatever
/// the commands hold.
pub proof fn lemma_no_convert_changes_nothing(es: Seq<(Seq<char>, Seq<char>)>)
    ensures
        changed_pairs(es, true) == Seq::<(Seq<char>, Seq<char>)>::empty(),
{
    lemma_changed_pairs_empty(es, true);
}

/// A converting run over a stream of commands none of which contains either
/// operator reports no changed entries: translation leaves every such
/// command as it is.
pub proof fn lemma_stream_without_operators_unchanged(es: Seq<(Seq<char>, Seq<char>)>)
    requires
        forall|i: int|
            0 <= i < es.len() ==> !contains_sub(#[trigger] es[i].1, "&&"@) && !contains_sub(
                es[i].1,
                "||"@,
            ),
    ensures
        changed_pairs(es, false) == Seq::<(Seq<char>, Seq<char>)>::empty(),
{
    assert forall|i: int| 0 <= i < es.len() implies out_command(
        #[trigger] es[i].1,
        false,
    ) == es[i].1 by {
        lemma_translate_identity(es[i].1);
    }
    lemma_changed_pairs_empty(es, false);
}

/// A converting run over a stream in which exactly one command is altered
/// by translation reports exactly that one (original, translated) pair.
pub proof fn lemma_single_changed_entry(es: Seq<(Seq<char>, Seq<char>)>, j: int)
    requires
        0 <= j < es.len(),
        spec_translate(es[j].1) != es[j].1,
        forall|i: int|
            0 <= i < es.len() && i != j ==> spec_translate(#[trigger] es[i].1) == es[i].1,
    ensures
        changed_pairs(es, false) == seq![(es[j].1, spec_translate(es[j].1))],
    decreases es.len(),
{
    if j == es.len() - 1 {
        assert forall|i: int| 0 <= i < es.drop_last().len() implies out_command(
            #[trigger] es.drop_last()[i].1,
            false,
        ) == es.drop_last()[i].1 by {
            assert(es.drop_last()[i] == es[i]);
        }
        lemma_changed_pairs_empty(es.drop_last(), false);
        assert(es.last() == es[j]);
        assert(Seq::<(Seq<char>, Seq<char>)>::empty().push((es[j].1, spec_translate(es[j].1)))
            =~= seq![(es[j].1, spec_translate(es[j].1))]);
    } else {
        assert(es.drop_last()[j] == es[j]);
        lemma_single_changed_entry(es.drop_last(), j);
        assert(es.last() == es[es.len() - 1]);
    }
}

} // verus!
