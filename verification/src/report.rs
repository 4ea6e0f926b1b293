//! What is printed of slots, targets and checks.

use vstd::prelude::*;

use crate::doubles::Double;
use crate::doubles::HUNDRED;
use crate::format::human_tokens;
use crate::format::pad_left;
use crate::format::pad_right;
use crate::format::repeat;
use crate::format::truncate;
use crate::lines::join;
use crate::lines::trim;
use crate::numbers::decimal;
use crate::paths::ManagerPaths;
use crate::slot::SlotLayoutAudit;
use crate::stats::TokenMix;
use crate::target::TargetSpec;
use crate::text::chars_of;
use crate::text::concat2;
use crate::text::concat3;
use crate::text::concat4;
use crate::text::contains_text;
use crate::text::copy_all;
use crate::text::copy_of;
use crate::text::extend;
use crate::text::push_text;
use crate::text::same;
use crate::text::split_once;
use crate::text::string_of;
use crate::text::strip_prefix;
use crate::text::to_lower;
use crate::usage::SlotResult;

verus! {

/// The cells of a bar.
pub const BAR_WIDTH: usize = 20;

// ---------------------------------------------------------------------------
// Slots
// ---------------------------------------------------------------------------

/// A bar that shows what is left, in percent.
pub open spec fn bar_of(left: Double) -> Seq<char> {
    let filled = left.filled(BAR_WIDTH as nat);
    crate::format::run_of('█', filled) + crate::format::run_of('░', (BAR_WIDTH - filled) as nat)
}

/// A bar that shows what is left, in percent: nothing where less is left than nothing,
/// and all where more is left than all.
pub fn progress_bar(percent_remaining: Double) -> (out: String)
    ensures
        out@ == bar_of(percent_remaining),
        out@.len() == BAR_WIDTH,
{
    let filled = percent_remaining.cells(BAR_WIDTH as u64) as usize;
    concat2(repeat('█', filled).as_str(), repeat('░', BAR_WIDTH - filled).as_str())
}

/// When a window is full again, as far as it is known.
pub open spec fn refresh_text(refresh: Option<Seq<char>>) -> Seq<char> {
    match refresh {
        Some(text) => "refresh "@ + text,
        None => "refresh unknown"@,
    }
}

/// The line of a window, if it is known how much of it is used.
pub open spec fn window_of(label: Seq<char>, used: Option<Double>, refresh: Option<Seq<char>>) -> Seq<
    Seq<char>,
> {
    match used {
        None => seq![],
        Some(part) => seq![
            "  "@ + crate::format::left_aligned(label, 6) + " ["@ + bar_of(part.left()) + "] "@
                + crate::format::right_aligned(part.left().form(1), 5) + "% left  "@ + refresh_text(refresh),
        ],
    }
}

/// The line of a window, if it is known how much of it is used.
pub fn window_lines(label: &str, used: Option<Double>, refresh: &Option<String>) -> (out: Vec<String>)
    ensures
        crate::text::texts(out@) == window_of(label@, used, crate::text::opt_text(*refresh)),
{
    let mut out: Vec<String> = Vec::new();
    match used {
        None => {},
        Some(part) => {
            let left = part.left_of_percent();
            let refreshed = match refresh {
                Some(text) => concat2("refresh ", text.as_str()),
                None => copy_of("refresh unknown"),
            };
            let head = concat4(
                "  ",
                pad_right(label, 6).as_str(),
                " [",
                progress_bar(left).as_str(),
            );
            let middle = concat4(
                head.as_str(),
                "] ",
                pad_left(left.text(1).as_str(), 5).as_str(),
                "% left  ",
            );
            out.push(concat2(middle.as_str(), refreshed.as_str()));
        },
    }
    proof {
        assert(crate::text::texts(out@) =~= window_of(
            label@,
            used,
            crate::text::opt_text(*refresh),
        ));
    }
    out
}

/// How many slots could not be checked.
pub open spec fn transient_count(results: Seq<SlotResult>) -> nat
    decreases results.len(),
{
    if results.len() == 0 {
        0
    } else {
        transient_count(results.drop_last()) + (if results.last()@.is_transient() {
            1nat
        } else {
            0nat
        })
    }
}

/// How many slots could not be checked.
pub fn transient_failure_count(results: &Vec<SlotResult>) -> (out: usize)
    ensures
        out == transient_count(results@),
{
    let mut out: usize = 0;
    let mut i: usize = 0;
    proof {
        assert(results@.take(0) =~= seq![]);
    }
    while i < results.len()
        invariant
            i <= results.len(),
            out <= i,
            out == transient_count(results@.take(i as int)),
        decreases results.len() - i,
    {
        proof {
            assert(results@.take(i + 1).drop_last() =~= results@.take(i as int));
            assert(results@.take(i + 1).last() == results@[i as int]);
        }
        if results[i].is_transient() {
            out += 1;
        }
        i += 1;
    }
    proof {
        assert(results@.take(results@.len() as int) =~= results@);
    }
    out
}

/// Whether the first result for a slot could not be checked.
pub open spec fn is_unverified(results: Seq<SlotResult>, slot: Seq<char>) -> bool
    decreases results.len(),
{
    if results.len() == 0 {
        false
    } else if results[0]@.slot == slot {
        results[0]@.is_transient()
    } else {
        is_unverified(results.skip(1), slot)
    }
}

fn unverified(results: &Vec<SlotResult>, slot: &str) -> (out: bool)
    ensures
        out == is_unverified(results@, slot@),
{
    let mut i: usize = 0;
    proof {
        assert(results@.skip(0) =~= results@);
    }
    while i < results.len()
        invariant
            i <= results.len(),
            is_unverified(results@, slot@) == is_unverified(results@.skip(i as int), slot@),
        decreases results.len() - i,
    {
        proof {
            assert(results@.skip(i as int)[0] == results@[i as int]);
            assert(results@.skip(i as int).skip(1) =~= results@.skip(i + 1));
        }
        if same(results[i].slot.as_str(), slot) {
            return results[i].is_transient();
        }
        i += 1;
    }
    false
}

/// When the windows of a slot are full again.
pub struct Refreshes {
    pub five_hour: Option<String>,
    pub weekly: Option<String>,
}

/// The lines of a slot.
pub open spec fn slot_lines_of(result: SlotResult, selected: Option<Seq<char>>, refreshes: Refreshes) -> Seq<
    Seq<char>,
> {
    let mark = if selected == Some(result@.slot) {
        "*"@
    } else {
        "-"@
    };
    let account = match result@.account_label {
        Some(label) => label,
        None => "-"@,
    };
    let head = mark + " "@ + crate::format::left_aligned(
        crate::format::shortened(result@.slot, 18),
        18,
    ) + " "@ + crate::format::left_aligned(crate::format::shortened(account, 30), 30) + " "@
        + crate::format::left_aligned(result.status.name(), 18) + " score "@
        + crate::format::right_aligned(result.score.form(1), 5)
        + "%"@;
    let note = if result.five_hour_used is None && result.weekly_used is None {
        seq!["  note    "@ + result@.summary]
    } else {
        seq![]
    };
    seq![head] + window_of("5h"@, result.five_hour_used, crate::text::opt_text(refreshes.five_hour))
        + window_of("weekly"@, result.weekly_used, crate::text::opt_text(refreshes.weekly)) + note
        + seq![seq![]]
}

/// The lines of a slot.
pub fn slot_lines(result: &SlotResult, selected: &Option<String>, refreshes: &Refreshes) -> (out: Vec<
    String,
>)
    ensures
        crate::text::texts(out@) == slot_lines_of(
            *result,
            crate::text::opt_text(*selected),
            *refreshes,
        ),
{
    let mark = match selected {
        Some(slot) => if same(slot.as_str(), result.slot.as_str()) {
            "*"
        } else {
            "-"
        },
        None => "-",
    };
    let account = match &result.account_label {
        Some(label) => truncate(label.as_str(), 30),
        None => truncate("-", 30),
    };
    let name = concat3(
        mark,
        " ",
        pad_right(truncate(result.slot.as_str(), 18).as_str(), 18).as_str(),
    );
    let who = concat3(name.as_str(), " ", pad_right(account.as_str(), 30).as_str());
    let state = concat4(
        who.as_str(),
        " ",
        pad_right(result.status.as_str(), 18).as_str(),
        " score ",
    );
    let head = concat3(
        state.as_str(),
        pad_left(result.score.text(1).as_str(), 5).as_str(),
        "%",
    );
    let ghost shown = head@;
    let mut out: Vec<String> = Vec::new();
    out.push(head);
    proof {
        assert(crate::text::texts(out@) =~= seq![shown]);
    }
    extend(&mut out, window_lines("5h", result.five_hour_used, &refreshes.five_hour));
    extend(&mut out, window_lines("weekly", result.weekly_used, &refreshes.weekly));
    let ghost before = crate::text::texts(out@);
    if result.five_hour_used.is_none() && result.weekly_used.is_none() {
        push_text(&mut out, concat2("  note    ", result.summary.as_str()));
    }
    proof {
        reveal_strlit("");
        assert(""@ =~= seq![]);
    }
    push_text(&mut out, copy_of(""));
    proof {
        assert(crate::text::texts(out@) =~= slot_lines_of(
            *result,
            crate::text::opt_text(*selected),
            *refreshes,
        ));
    }
    out
}

/// The lines of all slots.
pub open spec fn all_slot_lines(
    results: Seq<SlotResult>,
    selected: Option<Seq<char>>,
    refreshes: Seq<Refreshes>,
) -> Seq<Seq<char>>
    decreases results.len(),
{
    if results.len() == 0 || refreshes.len() != results.len() {
        seq![]
    } else {
        all_slot_lines(results.drop_last(), selected, refreshes.drop_last()) + slot_lines_of(
            results.last(),
            selected,
            refreshes.last(),
        )
    }
}

/// The lines that name the slot that was selected.
pub open spec fn selected_lines(results: Seq<SlotResult>, selected: Option<Seq<char>>) -> Seq<
    Seq<char>,
> {
    match selected {
        None => seq![],
        Some(slot) => if is_unverified(results, slot) {
            seq!["selected: "@ + slot + " (unverified)"@, seq![]]
        } else {
            seq!["selected: "@ + slot, seq![]]
        },
    }
}

/// The line that warns of slots that could not be checked.
pub open spec fn warning_lines(results: Seq<SlotResult>) -> Seq<Seq<char>> {
    if transient_count(results) > 0 {
        seq![
            "warning: "@ + crate::numbers::decimal_of(transient_count(results)) + "/"@
                + crate::numbers::decimal_of(results.len())
                + " slots could not be refreshed; no cached status was used"@,
        ]
    } else {
        seq![]
    }
}

/// The lines of a report on slots.
pub fn print_report(
    results: &Vec<SlotResult>,
    selected: &Option<String>,
    refreshes: &Vec<Refreshes>,
) -> (out: Vec<String>)
    requires
        refreshes.len() == results.len(),
    ensures
        crate::text::texts(out@) == selected_lines(results@, crate::text::opt_text(*selected))
            + all_slot_lines(results@, crate::text::opt_text(*selected), refreshes@)
            + warning_lines(results@),
{
    let ghost chosen = crate::text::opt_text(*selected);
    let mut out: Vec<String> = Vec::new();
    proof {
        reveal_strlit("");
        assert(""@ =~= seq![]);
    }
    match selected {
        Some(slot) => {
            if unverified(results, slot.as_str()) {
                out.push(concat3("selected: ", slot.as_str(), " (unverified)"));
            } else {
                out.push(concat2("selected: ", slot.as_str()));
            }
            out.push(copy_of(""));
        },
        None => {},
    }
    let ghost head = selected_lines(results@, chosen);
    let mut i: usize = 0;
    proof {
        assert(crate::text::texts(out@) =~= head);
        assert(results@.take(0) =~= seq![]);
        assert(head + all_slot_lines(results@.take(0), chosen, refreshes@.take(0)) =~= head);
    }
    while i < results.len()
        invariant
            i <= results.len(),
            refreshes.len() == results.len(),
            chosen == crate::text::opt_text(*selected),
            crate::text::texts(out@) == head + all_slot_lines(
                results@.take(i as int),
                chosen,
                refreshes@.take(i as int),
            ),
        decreases results.len() - i,
    {
        let ghost before = all_slot_lines(results@.take(i as int), chosen, refreshes@.take(i as int));
        proof {
            assert(results@.take(i + 1).drop_last() =~= results@.take(i as int));
            assert(refreshes@.take(i + 1).drop_last() =~= refreshes@.take(i as int));
            assert(results@.take(i + 1).last() == results@[i as int]);
            assert(refreshes@.take(i + 1).last() == refreshes@[i as int]);
        }
        extend(&mut out, slot_lines(&results[i], selected, &refreshes[i]));
        proof {
            let lines = slot_lines_of(results@[i as int], chosen, refreshes@[i as int]);
            assert(head + before + lines =~= head + (before + lines));
        }
        i += 1;
    }
    proof {
        assert(results@.take(results@.len() as int) =~= results@);
        assert(refreshes@.take(refreshes@.len() as int) =~= refreshes@);
    }
    let failed = transient_failure_count(results);
    let ghost before = crate::text::texts(out@);
    if failed > 0 {
        let counts = concat4(
            "warning: ",
            decimal(failed as u64).as_str(),
            "/",
            decimal(results.len() as u64).as_str(),
        );
        push_text(
            &mut out,
            concat2(
                counts.as_str(),
                " slots could not be refreshed; no cached status was used",
            ),
        );
    }
    proof {
        assert(crate::text::texts(out@) =~= before + warning_lines(results@));
    }
    out
}

/// The line of a slot that is not available.
pub open spec fn unavailable_line(result: SlotResult) -> Seq<char> {
    "  "@ + result@.slot + ": "@ + result.status.name() + "; "@ + result@.summary
}

/// The lines that say that no slot is available.
pub fn print_no_available(results: &Vec<SlotResult>) -> (out: Vec<String>)
    ensures
        crate::text::texts(out@) == seq!["cx: no available slots"@] + results@.map_values(
            |result: SlotResult| unavailable_line(result),
        ),
{
    let mut out: Vec<String> = Vec::new();
    out.push(copy_of("cx: no available slots"));
    let mut i: usize = 0;
    while i < results.len()
        invariant
            i <= results.len(),
            out@.len() == i + 1,
            out@[0]@ == "cx: no available slots"@,
            forall|j: int| 1 <= j <= i ==> (#[trigger] out@[j])@ == unavailable_line(results@[j - 1]),
        decreases results.len() - i,
    {
        let head = concat4("  ", results[i].slot.as_str(), ": ", results[i].status.as_str());
        out.push(concat3(head.as_str(), "; ", results[i].summary.as_str()));
        i += 1;
    }
    proof {
        assert(crate::text::texts(out@) =~= seq!["cx: no available slots"@]
            + results@.map_values(|result: SlotResult| unavailable_line(result)));
    }
    out
}

// ---------------------------------------------------------------------------
// Checks
// ---------------------------------------------------------------------------

/// `path` as seen from `base`, where it lies below.
pub open spec fn below(path: Seq<char>, base: Seq<char>) -> Seq<char> {
    match crate::text::stripped_prefix(path, base + "/"@) {
        Some(rest) => rest,
        None => if path == base {
            seq![]
        } else {
            path
        },
    }
}

fn relative_path(path: &str, base: &str) -> (out: String)
    ensures
        out@ == below(path@, base@),
{
    match strip_prefix(&chars_of(path), concat2(base, "/").as_str()) {
        Some(rest) => string_of(&rest),
        None => if same(path, base) {
            proof {
                reveal_strlit("");
                assert(""@ =~= seq![]);
            }
            copy_of("")
        } else {
            copy_of(path)
        },
    }
}

/// How a slot is doing.
pub open spec fn audit_status(audit: SlotLayoutAudit) -> Seq<char> {
    if audit.issues@.len() == 0 {
        "ok"@
    } else if !audit.home_exists {
        "missing home"@
    } else if !audit.auth_exists {
        "missing auth"@
    } else {
        "layout issues"@
    }
}

/// The line of an issue.
pub open spec fn issue_line(issue: crate::slot::SlotLayoutIssue, home: Seq<char>) -> Seq<char> {
    "    warning: "@ + below(issue.path@, home) + ": "@ + issue.message@
}

/// The lines of a slot that was checked.
pub open spec fn audit_lines_of(slot: Seq<char>, audit: SlotLayoutAudit, home: Seq<char>) -> Seq<
    Seq<char>,
> {
    seq!["  "@ + slot + ": "@ + audit_status(audit)] + audit.issues@.map_values(
        |issue: crate::slot::SlotLayoutIssue| issue_line(issue, home),
    )
}

fn audit_lines(slot: &str, audit: &SlotLayoutAudit, home: &str) -> (out: Vec<String>)
    ensures
        crate::text::texts(out@) == audit_lines_of(slot@, *audit, home@),
{
    let status = if audit.issues.len() == 0 {
        "ok"
    } else if !audit.home_exists {
        "missing home"
    } else if !audit.auth_exists {
        "missing auth"
    } else {
        "layout issues"
    };
    let mut out: Vec<String> = Vec::new();
    out.push(concat4("  ", slot, ": ", status));
    let mut i: usize = 0;
    while i < audit.issues.len()
        invariant
            i <= audit.issues.len(),
            out@.len() == i + 1,
            out@[0]@ == "  "@ + slot@ + ": "@ + audit_status(*audit),
            forall|j: int|
                1 <= j <= i ==> (#[trigger] out@[j])@ == issue_line(audit.issues@[j - 1], home@),
        decreases audit.issues.len() - i,
    {
        let issue = &audit.issues[i];
        out.push(
            concat4(
                "    warning: ",
                relative_path(issue.path.as_str(), home).as_str(),
                ": ",
                issue.message.as_str(),
            ),
        );
        i += 1;
    }
    proof {
        assert(crate::text::texts(out@) =~= audit_lines_of(slot@, *audit, home@));
    }
    out
}

/// The lines of all slots that were checked.
pub open spec fn all_audit_lines(
    paths: ManagerPaths,
    slots: Seq<Seq<char>>,
    audits: Seq<SlotLayoutAudit>,
) -> Seq<Seq<char>>
    decreases slots.len(),
{
    if slots.len() == 0 || audits.len() != slots.len() {
        seq![]
    } else {
        all_audit_lines(paths, slots.drop_last(), audits.drop_last()) + audit_lines_of(
            slots.last(),
            audits.last(),
            paths.slot_home_text(slots.last()),
        )
    }
}

/// The lines above the slots.
pub open spec fn doctor_head(paths: ManagerPaths, slots: nat) -> Seq<Seq<char>> {
    let head = seq![
        "manager: "@ + paths.manager_dir@,
        "slots: "@ + paths.slots_dir@,
        "rotation: "@ + paths.rotation_file@,
        "configured slots: "@ + crate::numbers::decimal_of(slots),
    ];
    if slots == 0 {
        head.push("warning: rotation.txt is empty or missing"@)
    } else {
        head
    }
}

/// The lines of a check of all slots.
pub fn print_doctor(paths: &ManagerPaths, slots: &Vec<String>, audits: &Vec<SlotLayoutAudit>) -> (out:
    Vec<String>)
    requires
        audits.len() == slots.len(),
    ensures
        crate::text::texts(out@) == doctor_head(*paths, slots@.len()) + all_audit_lines(
            *paths,
            crate::text::texts(slots@),
            audits@,
        ),
{
    let ghost all = crate::text::texts(slots@);
    let ghost head = doctor_head(*paths, slots@.len());
    let mut out: Vec<String> = Vec::new();
    out.push(concat2("manager: ", paths.manager_dir.as_str()));
    out.push(concat2("slots: ", paths.slots_dir.as_str()));
    out.push(concat2("rotation: ", paths.rotation_file.as_str()));
    out.push(concat2("configured slots: ", decimal(slots.len() as u64).as_str()));
    if slots.len() == 0 {
        out.push(copy_of("warning: rotation.txt is empty or missing"));
    }
    let mut i: usize = 0;
    proof {
        assert(crate::text::texts(out@) =~= head);
        assert(all.take(0) =~= seq![]);
        assert(head + all_audit_lines(*paths, all.take(0), audits@.take(0)) =~= head);
    }
    while i < slots.len()
        invariant
            i <= slots.len(),
            audits.len() == slots.len(),
            all == crate::text::texts(slots@),
            crate::text::texts(out@) == head + all_audit_lines(
                *paths,
                all.take(i as int),
                audits@.take(i as int),
            ),
        decreases slots.len() - i,
    {
        let ghost before = all_audit_lines(*paths, all.take(i as int), audits@.take(i as int));
        proof {
            assert(all.take(i + 1).drop_last() =~= all.take(i as int));
            assert(audits@.take(i + 1).drop_last() =~= audits@.take(i as int));
            assert(all.take(i + 1).last() == slots@[i as int]@);
            assert(audits@.take(i + 1).last() == audits@[i as int]);
        }
        let home = paths.slot_home(slots[i].as_str());
        extend(&mut out, audit_lines(slots[i].as_str(), &audits[i], home.as_str()));
        proof {
            let lines = audit_lines_of(slots@[i as int]@, audits@[i as int], home@);
            assert(head + before + lines =~= head + (before + lines));
        }
        i += 1;
    }
    proof {
        assert(all.take(all.len() as int) =~= all);
        assert(audits@.take(audits@.len() as int) =~= audits@);
    }
    out
}

// ---------------------------------------------------------------------------
// Targets
// ---------------------------------------------------------------------------

/// Whether the name of a setting tells that its value is a secret.
pub open spec fn is_sensitive(key: Seq<char>) -> bool {
    let low = crate::text::lowered(key);
    ||| crate::text::has_text(low, "api_key"@)
    ||| crate::text::has_text(low, "credential"@)
    ||| crate::text::has_text(low, "password"@)
    ||| crate::text::has_text(low, "secret"@)
    ||| crate::text::has_text(low, "token"@)
}

/// A setting without its value where that is a secret.
pub open spec fn redacted(line: Seq<char>) -> Seq<char> {
    match crate::text::split_at_first(line, '=') {
        None => line,
        Some(parts) => if is_sensitive(parts.0) {
            crate::lines::trimmed(parts.0) + "=<redacted>"@
        } else {
            line
        },
    }
}

/// A setting without its value where that is a secret.
pub fn redact_override(line: &str) -> (out: String)
    ensures
        out@ == redacted(line@),
{
    match split_once(&chars_of(line), '=') {
        None => copy_of(line),
        Some((key, _)) => {
            let low = to_lower(&key);
            if contains_text(&low, "api_key") || contains_text(&low, "credential")
                || contains_text(&low, "password") || contains_text(&low, "secret")
                || contains_text(&low, "token") {
                concat2(string_of(&trim(&key)).as_str(), "=<redacted>")
            } else {
                copy_of(line)
            }
        },
    }
}

/// Settings without secrets.
pub open spec fn all_redacted(lines: Seq<Seq<char>>) -> Seq<Seq<char>> {
    lines.map_values(|line: Seq<char>| redacted(line))
}

/// The settings of a target without secrets.
pub fn shown_overrides(target: &TargetSpec) -> (out: Vec<String>)
    ensures
        crate::text::texts(out@) == all_redacted(target@.overrides),
{
    let mut out: Vec<String> = Vec::new();
    let mut i: usize = 0;
    while i < target.overrides.len()
        invariant
            i <= target.overrides.len(),
            out@.len() == i,
            forall|j: int|
                0 <= j < i ==> (#[trigger] out@[j])@ == redacted(target.overrides@[j]@),
        decreases target.overrides.len() - i,
    {
        out.push(redact_override(target.overrides[i].as_str()));
        i += 1;
    }
    proof {
        assert(crate::text::texts(out@) =~= all_redacted(target@.overrides));
    }
    out
}

/// The names of entries.
pub open spec fn keys_of(entries: Seq<(String, String)>) -> Seq<Seq<char>> {
    entries.map_values(|entry: (String, String)| entry.0@)
}

/// Whether `keys` lists the variables of a target, in order.
pub open spec fn lists_keys(target: crate::target::TargetModel, keys: Seq<Seq<char>>) -> bool {
    &&& forall|i: int, j: int|
        0 <= i < j < keys.len() ==> crate::textmap::text_lt(#[trigger] keys[i], #[trigger] keys[j])
    &&& forall|key: Seq<char>| #[trigger] keys.contains(key) <==> target.env.dom().contains(key)
}

/// The variables of a target, in order.
pub fn env_keys(target: &TargetSpec) -> (out: Vec<String>)
    ensures
        lists_keys(target@, crate::text::texts(out@)),
{
    let entries = target.env.entries();
    let mut out: Vec<String> = Vec::new();
    let mut i: usize = 0;
    while i < entries.len()
        invariant
            i <= entries.len(),
            out@.len() == i,
            forall|j: int| 0 <= j < i ==> (#[trigger] out@[j])@ == entries@[j].0@,
        decreases entries.len() - i,
    {
        out.push(entries[i].0.clone());
        i += 1;
    }
    proof {
        let keys = crate::text::texts(out@);
        assert(keys =~= keys_of(entries@));
        assert forall|key: Seq<char>| #[trigger] keys.contains(key) <==> target@.env.dom().contains(
            key,
        ) by {
            if keys.contains(key) {
                let k = choose|k: int| 0 <= k < keys.len() && keys[k] == key;
                assert(entries@[k].0@ == key);
                assert(crate::textmap::has_key(entries@, key));
            }
            if target@.env.dom().contains(key) {
                assert(crate::textmap::has_key(entries@, key));
                let k = crate::textmap::key_position(entries@, key);
                assert(keys[k] == key);
            }
        }
    }
    out
}

/// The lines of a target.
pub open spec fn target_lines(target: crate::target::TargetModel, keys: Seq<Seq<char>>) -> Seq<
    Seq<char>,
> {
    let slots = if target.slots.len() == 0 {
        "slots: rotation.txt"@
    } else {
        "slots: "@ + crate::lines::joined(target.slots, ", "@)
    };
    let settings = if target.overrides.len() == 0 {
        seq![]
    } else {
        seq!["set:"@] + all_redacted(target.overrides).map_values(|line: Seq<char>| "  "@ + line)
    };
    let env = if keys.len() == 0 {
        seq![]
    } else {
        seq!["env: "@ + crate::lines::joined(keys, ", "@)]
    };
    seq!["target: "@ + target.name, slots] + settings + env
}

/// The lines of a target. No secret and no value of a variable is shown.
pub fn print_target(target: &TargetSpec) -> (out: Vec<String>)
    ensures
        exists|keys: Seq<Seq<char>>|
            lists_keys(target@, keys) && crate::text::texts(out@) == #[trigger] target_lines(
                target@,
                keys,
            ),
{
    let keys = env_keys(target);
    let overrides = shown_overrides(target);
    let ghost names = crate::text::texts(keys@);
    let ghost shown = crate::text::texts(overrides@);
    proof {
        assert(crate::text::texts(target.slots@).len() == target.slots@.len());
        assert(names.len() == keys@.len());
        assert(shown.len() == overrides@.len());
    }
    let mut out: Vec<String> = Vec::new();
    out.push(concat2("target: ", target.name.as_str()));
    if target.slots.len() == 0 {
        out.push(copy_of("slots: rotation.txt"));
    } else {
        out.push(concat2("slots: ", join(&target.slots, ", ").as_str()));
    }
    let ghost head = crate::text::texts(out@);
    if overrides.len() > 0 {
        push_text(&mut out, copy_of("set:"));
        let ghost all = shown.map_values(|line: Seq<char>| "  "@ + line);
        let mut i: usize = 0;
        proof {
            assert(crate::text::texts(out@) =~= head + (seq!["set:"@] + all.take(0)));
        }
        while i < overrides.len()
            invariant
                i <= overrides.len(),
                shown == crate::text::texts(overrides@),
                all == shown.map_values(|line: Seq<char>| "  "@ + line),
                crate::text::texts(out@) == head + (seq!["set:"@] + all.take(i as int)),
            decreases overrides.len() - i,
        {
            push_text(&mut out, concat2("  ", overrides[i].as_str()));
            proof {
                assert(head + (seq!["set:"@] + all.take(i + 1)) =~= (head + (seq!["set:"@]
                    + all.take(i as int))).push(all[i as int]));
            }
            i += 1;
        }
        proof {
            assert(all.take(all.len() as int) =~= all);
        }
    }
    if keys.len() > 0 {
        push_text(&mut out, concat2("env: ", join(&keys, ", ").as_str()));
    }
    proof {
        assert(crate::text::texts(out@) =~= target_lines(target@, names));
    }
    out
}

/// The lines of all targets: their names.
pub fn print_targets(targets: &Vec<String>) -> (out: Vec<String>)
    ensures
        crate::text::texts(out@) == crate::text::texts(targets@),
{
    copy_all(targets)
}

/// What is said of a target that was saved.
pub fn saved_target_lines(paths: &ManagerPaths, target: &str) -> (out: Vec<String>)
    ensures
        crate::text::texts(out@) == seq![
            "updated target: "@ + target@,
            "target file: "@ + crate::paths::joined_path(
                paths.targets_dir@,
                target@ + ".toml"@,
            ),
        ],
{
    let mut out: Vec<String> = Vec::new();
    out.push(concat2("updated target: ", target));
    out.push(concat2("target file: ", paths.target_file(target).as_str()));
    proof {
        assert(crate::text::texts(out@) =~= seq![out@[0]@, out@[1]@]);
    }
    out
}

/// What is said of a target that was to be removed.
pub fn removed_target_line(target: &str, was_there: bool) -> (out: String)
    ensures
        out@ == (if was_there {
            "removed target: "@
        } else {
            "target not found: "@
        }) + target@,
{
    if was_there {
        concat2("removed target: ", target)
    } else {
        concat2("target not found: ", target)
    }
}

// ---------------------------------------------------------------------------
// Counts
// ---------------------------------------------------------------------------

/// What a calibration found. A share of one is all.
pub struct CalibrationReport {
    pub saved_to: String,
    pub source_databases: Vec<String>,
    pub source_rollouts: u64,
    pub samples: u64,
    pub total_tokens: u64,
    pub token_mix: TokenMix,
}

/// A share as a percentage with two digits.
pub open spec fn percent_of(share: Double) -> Seq<char> {
    share.hundredfold().form(2) + "%"@
}

/// A share as a percentage with two digits.
pub fn format_percent(share: Double) -> (out: String)
    ensures
        out@ == percent_of(share),
{
    concat2(share.in_hundredths().text(2).as_str(), "%")
}

/// The line that names databases.
pub open spec fn database_line(databases: Seq<Seq<char>>) -> Seq<char> {
    if databases.len() == 1 {
        "state db: "@ + databases[0]
    } else {
        "state dbs: "@ + crate::numbers::decimal_of(databases.len())
    }
}

/// The lines of a calibration.
pub open spec fn calibration_lines(report: CalibrationReport) -> Seq<Seq<char>> {
    seq![
        "saved: "@ + report.saved_to@,
        database_line(crate::text::texts(report.source_databases@)),
        "rollouts: "@ + crate::numbers::decimal_of(report.source_rollouts as nat),
        "samples: "@ + crate::numbers::decimal_of(report.samples as nat),
        "tokens: "@ + crate::format::tokens_text(report.total_tokens as nat),
        "mix: "@ + percent_of(report.token_mix.uncached_input_share) + " uncached input, "@
            + percent_of(report.token_mix.cached_input_share) + " cached input, "@
            + percent_of(report.token_mix.output_share) + " output"@,
    ]
}

/// The lines of a calibration.
pub fn print_stats_calibration(report: &CalibrationReport) -> (out: Vec<String>)
    ensures
        crate::text::texts(out@) == calibration_lines(*report),
{
    let mut out: Vec<String> = Vec::new();
    out.push(concat2("saved: ", report.saved_to.as_str()));
    proof {
        assert(crate::text::texts(report.source_databases@).len()
            == report.source_databases@.len());
    }
    if report.source_databases.len() == 1 {
        out.push(concat2("state db: ", report.source_databases[0].as_str()));
    } else {
        out.push(
            concat2("state dbs: ", decimal(report.source_databases.len() as u64).as_str()),
        );
    }
    out.push(concat2("rollouts: ", decimal(report.source_rollouts).as_str()));
    out.push(concat2("samples: ", decimal(report.samples).as_str()));
    out.push(concat2("tokens: ", human_tokens(report.total_tokens).as_str()));
    let fresh = concat3(
        "mix: ",
        format_percent(report.token_mix.uncached_input_share).as_str(),
        " uncached input, ",
    );
    let cached = concat3(
        fresh.as_str(),
        format_percent(report.token_mix.cached_input_share).as_str(),
        " cached input, ",
    );
    out.push(
        concat3(
            cached.as_str(),
            format_percent(report.token_mix.output_share).as_str(),
            " output",
        ),
    );
    proof {
        assert(crate::text::texts(out@) =~= calibration_lines(*report));
    }
    out
}

/// What a merge of the indexes of slots did, or would do.
pub struct MergeReport {
    pub dry_run: bool,
    pub sources: Vec<String>,
    pub shared_sqlite_home: String,
    pub source_threads: u64,
    pub shared_threads: u64,
    pub removed_legacy_files: u64,
}

/// The lines of a merge.
pub open spec fn merge_lines(report: MergeReport) -> Seq<Seq<char>> {
    let sources = crate::text::texts(report.sources@);
    let action = if report.dry_run {
        "dry run: would merge "@
    } else {
        "merged "@
    };
    let head = action + crate::numbers::decimal_of(sources.len()) + " slot database(s) into "@
        + report.shared_sqlite_home@;
    let names = sources.map_values(|slot: Seq<char>| "  "@ + slot);
    let threads = "source thread rows: "@ + crate::numbers::decimal_of(
        report.source_threads as nat,
    );
    let shared = crate::numbers::decimal_of(report.shared_threads as nat);
    let tail = if report.dry_run {
        seq![threads, "current shared threads: "@ + shared]
    } else {
        seq![
            threads,
            "shared unique threads: "@ + shared,
            "removed legacy SQLite files: "@ + crate::numbers::decimal_of(
                report.removed_legacy_files as nat,
            ),
        ]
    };
    seq![head] + names + tail
}

/// The lines of a merge.
pub fn merge_report_lines(report: &MergeReport) -> (out: Vec<String>)
    ensures
        crate::text::texts(out@) == merge_lines(*report),
{
    let action = if report.dry_run {
        "dry run: would merge "
    } else {
        "merged "
    };
    let head = concat4(
        action,
        decimal(report.sources.len() as u64).as_str(),
        " slot database(s) into ",
        report.shared_sqlite_home.as_str(),
    );
    let ghost shown = head@;
    let ghost names = crate::text::texts(report.sources@).map_values(|slot: Seq<char>| "  "@ + slot);
    let mut out: Vec<String> = Vec::new();
    push_text(&mut out, head);
    let mut i: usize = 0;
    proof {
        assert(crate::text::texts(out@) =~= seq![shown] + names.take(0));
    }
    while i < report.sources.len()
        invariant
            i <= report.sources.len(),
            names == crate::text::texts(report.sources@).map_values(
                |slot: Seq<char>| "  "@ + slot,
            ),
            crate::text::texts(out@) == seq![shown] + names.take(i as int),
        decreases report.sources.len() - i,
    {
        push_text(&mut out, concat2("  ", report.sources[i].as_str()));
        proof {
            assert(seq![shown] + names.take(i + 1) =~= (seq![shown] + names.take(i as int)).push(
                names[i as int],
            ));
        }
        i += 1;
    }
    proof {
        assert(names.take(names.len() as int) =~= names);
    }
    push_text(
        &mut out,
        concat2("source thread rows: ", decimal(report.source_threads).as_str()),
    );
    let shared = decimal(report.shared_threads);
    if report.dry_run {
        push_text(&mut out, concat2("current shared threads: ", shared.as_str()));
    } else {
        push_text(&mut out, concat2("shared unique threads: ", shared.as_str()));
        push_text(
            &mut out,
            concat2(
                "removed legacy SQLite files: ",
                decimal(report.removed_legacy_files).as_str(),
            ),
        );
    }
    proof {
        assert(crate::text::texts(out@) =~= merge_lines(*report));
    }
    out
}

// ---------------------------------------------------------------------------
// Progress
// ---------------------------------------------------------------------------

/// Whether progress is shown.
#[derive(Clone, Copy, Debug, PartialEq, Eq, Structural)]
pub struct ProgressOptions {
    pub enabled: bool,
}

impl ProgressOptions {
    /// Progress is shown unless it is switched off, and only where `allowed`: on a
    /// terminal whose user has not switched it off.
    pub fn for_human_output(disabled: bool, allowed: bool) -> (out: ProgressOptions)
        ensures
            out.enabled == (!disabled && allowed),
    {
        ProgressOptions { enabled: !disabled && allowed }
    }

    /// Whether a count of `len` items is shown.
    pub fn shows_count(&self, len: usize) -> (out: bool)
        ensures
            out == (self.enabled && len > 0),
    {
        self.enabled && len > 0
    }
}

/// Whether the terminal allows progress.
pub fn terminal_progress_allowed(
    no_progress_is_set: bool,
    stdout_is_terminal: bool,
    stderr_is_terminal: bool,
) -> (out: bool)
    ensures
        out == (!no_progress_is_set && stdout_is_terminal && stderr_is_terminal),
{
    !no_progress_is_set && stdout_is_terminal && stderr_is_terminal
}

/// What is shown while slots are asked again.
pub fn retry_message(attempt: usize, total_attempts: usize) -> (out: String)
    ensures
        out@ == "retrying transient failures "@ + crate::numbers::decimal_of(attempt as nat)
            + "/"@ + crate::numbers::decimal_of(total_attempts as nat),
{
    concat4(
        "retrying transient failures ",
        decimal(attempt as u64).as_str(),
        "/",
        decimal(total_attempts as u64).as_str(),
    )
}

// ---------------------------------------------------------------------------
// Laws
// ---------------------------------------------------------------------------

/// The name of a setting: what stands before the first equals sign.
pub open spec fn setting_name(line: Seq<char>) -> Option<Seq<char>> {
    match crate::text::split_at_first(line, '=') {
        Some(parts) => Some(parts.0),
        None => None,
    }
}

/// Of a setting whose name tells of a secret only the name is shown: two such
/// settings with the same name look alike, whatever their values are.
pub proof fn secrets_are_not_shown(a: Seq<char>, b: Seq<char>, name: Seq<char>)
    requires
        setting_name(a) == Some(name),
        setting_name(b) == Some(name),
        is_sensitive(name),
    ensures
        redacted(a) == redacted(b),
{
}

/// More left never shows a shorter bar, a full window fills it, and an empty one
/// leaves it empty.
pub proof fn bars_grow_with_what_is_left(a: Double, b: Double)
    requires
        a.bits <= b.bits <= HUNDRED,
    ensures
        a.filled(BAR_WIDTH as nat) <= b.filled(BAR_WIDTH as nat) <= BAR_WIDTH,
        (Double { bits: 0 }).filled(BAR_WIDTH as nat) == 0,
        (Double { bits: HUNDRED }).filled(BAR_WIDTH as nat) == BAR_WIDTH,
{
    crate::doubles::bars_grow(a, b, BAR_WIDTH as nat);
}

/// Where the bar of a window's line begins.
pub open spec fn bar_start(label: Seq<char>) -> int {
    if label.len() < 6 {
        10
    } else {
        label.len() as int + 4
    }
}

/// The line of a window of which a part is used shows what is left: the rest of one
/// hundred percent, as text before `% left` and as the filled cells of the bar.
pub proof fn windows_show_what_is_left(label: Seq<char>, used: Double, refresh: Option<Seq<char>>)
    requires
        used.bits <= HUNDRED,
    ensures
        window_of(label, None, refresh).len() == 0,
        window_of(label, Some(used), refresh).len() == 1,
        ({
            let line = window_of(label, Some(used), refresh)[0];
            let rest = crate::doubles::nearest(
                (100 * crate::doubles::one() - crate::doubles::steps(used.bits as nat)) as nat,
                1,
            );
            let left = Double { bits: rest as u64 };
            let text = left.form(1);
            let from = bar_start(label);
            let to = if text.len() < 5 {
                from + 27
            } else {
                from + 22 + text.len()
            };
            &&& line.len() >= to + 8
            &&& line.subrange(to - text.len(), to) == text
            &&& line.subrange(to, to + 8) == "% left  "@
            &&& line.skip(to + 8) == (match refresh {
                Some(when) => "refresh "@ + when,
                None => "refresh unknown"@,
            })
            &&& forall|i: int|
                0 <= i < 20 ==> #[trigger] line[from + i] == (if i < left.filled(20) {
                    '█'
                } else {
                    '░'
                })
        }),
{
    crate::doubles::what_is_left_is_the_rest(used, used);
    reveal_strlit("  ");
    reveal_strlit(" [");
    reveal_strlit("] ");
    reveal_strlit("% left  ");
    let left = used.left();
    crate::doubles::bars_grow(left, Double { bits: HUNDRED }, 20);
    let text = left.form(1);
    let from = bar_start(label);
    let line = window_of(label, Some(used), refresh)[0];
    let name = crate::format::left_aligned(label, 6);
    let number = crate::format::right_aligned(text, 5);
    let bar = bar_of(left);
    let head = "  "@ + name + " ["@;
    assert(head.len() == from);
    assert(bar.len() == 20);
    let to = from + 22 + number.len();
    assert(line.subrange(to - text.len(), to) =~= text);
    assert(line.subrange(to, to + 8) =~= "% left  "@);
    assert(line.skip(to + 8) =~= refresh_text(refresh));
    assert forall|i: int| 0 <= i < 20 implies #[trigger] line[from + i] == (if i < left.filled(
        20,
    ) {
        '█'
    } else {
        '░'
    }) by {
        assert(line[from + i] == bar[i]);
    }
}

proof fn lemma_cell(label: Seq<char>, used: Double, refresh: Option<Seq<char>>, cell: int)
    requires
        used.bits <= HUNDRED,
        0 <= cell < 20,
    ensures
        window_of(label, Some(used), refresh)[0][bar_start(label) + cell] == (if cell
            < used.left().filled(20) {
            '█'
        } else {
            '░'
        }),
{
    windows_show_what_is_left(label, used, refresh);
    crate::doubles::what_is_left_is_the_rest(used, used);
}

/// Where more of a window is used, no cell of its bar is filled that would not be filled
/// otherwise. All are filled where nothing is used, and none where all is.
pub proof fn bars_shrink_with_use(
    label: Seq<char>,
    less: Double,
    more: Double,
    refresh: Option<Seq<char>>,
    cell: int,
)
    requires
        less.bits <= more.bits <= HUNDRED,
        0 <= cell < 20,
    ensures
        ({
            let at = bar_start(label) + cell;
            let nothing = Double { bits: 0 };
            let all = Double { bits: HUNDRED };
            &&& window_of(label, Some(more), refresh)[0][at] == '█' ==> window_of(
                label,
                Some(less),
                refresh,
            )[0][at] == '█'
            &&& window_of(label, Some(nothing), refresh)[0][at] == '█'
            &&& window_of(label, Some(all), refresh)[0][at] == '░'
        }),
{
    let nothing = Double { bits: 0 };
    let all = Double { bits: HUNDRED };
    lemma_cell(label, less, refresh, cell);
    lemma_cell(label, more, refresh, cell);
    lemma_cell(label, nothing, refresh, cell);
    lemma_cell(label, all, refresh, cell);
    crate::doubles::what_is_left_is_the_rest(less, more);
    crate::doubles::what_is_left_is_the_rest(nothing, all);
    crate::doubles::bars_grow(more.left(), less.left(), 20);
    crate::doubles::bars_grow(nothing, all, 20);
}

/// The status of a slot begins with its mark, a star for the slot that was selected and
/// no other, and its name; both windows are shown as far as they are known, and a note
/// where neither is.
pub proof fn statuses_show_slots(result: SlotResult, selected: Option<Seq<char>>, refreshes: Refreshes)
    ensures
        ({
            let lines = slot_lines_of(result, selected, refreshes);
            let five = result.five_hour_used is Some;
            let weekly = result.weekly_used is Some;
            &&& lines.len() == 2 + (if five {
                1int
            } else {
                0
            }) + (if weekly {
                1int
            } else {
                0
            }) + (if !five && !weekly {
                1int
            } else {
                0
            })
            &&& lines[0].len() > 20
            &&& lines[0][0] == (if selected == Some(result@.slot) {
                '*'
            } else {
                '-'
            })
            &&& result@.slot.len() <= 18 ==> lines[0].subrange(2, 2 + result@.slot.len() as int)
                == result@.slot
            &&& lines.last().len() == 0
            &&& five ==> lines[1] == window_of(
                "5h"@,
                result.five_hour_used,
                crate::text::opt_text(refreshes.five_hour),
            )[0]
            &&& weekly ==> lines[lines.len() - 2] == window_of(
                "weekly"@,
                result.weekly_used,
                crate::text::opt_text(refreshes.weekly),
            )[0]
            &&& !five && !weekly ==> lines[1] == "  note    "@ + result@.summary
        }),
{
    reveal_strlit("*");
    reveal_strlit("-");
    reveal_strlit(" ");
    crate::format::shortened_text_fits(result@.slot, 18);
    let lines = slot_lines_of(result, selected, refreshes);
    if result@.slot.len() <= 18 {
        assert(crate::format::shortened(result@.slot, 18) == result@.slot);
        assert(lines[0].subrange(2, 2 + result@.slot.len() as int) =~= result@.slot);
    }
}

/// The first line of a slot holds its account, its status and its score, in columns.
pub proof fn statuses_show_accounts(
    result: SlotResult,
    selected: Option<Seq<char>>,
    refreshes: Refreshes,
)
    requires
        result@.slot.len() <= 18,
        result@.account_label matches Some(label) ==> label.len() <= 30,
        result.status.name().len() <= 18,
    ensures
        ({
            let line = slot_lines_of(result, selected, refreshes)[0];
            let account = match result@.account_label {
                Some(label) => label,
                None => "-"@,
            };
            let score = result.score.form(1) + "%"@;
            &&& line.subrange(21, 21 + account.len() as int) == account
            &&& line.subrange(52, 52 + result.status.name().len() as int) == result.status.name()
            &&& line.skip(line.len() - score.len()) == score
        }),
{
    reveal_strlit("*");
    reveal_strlit("-");
    reveal_strlit(" ");
    reveal_strlit("%");
    reveal_strlit(" score ");
    let line = slot_lines_of(result, selected, refreshes)[0];
    let account = match result@.account_label {
        Some(label) => label,
        None => "-"@,
    };
    let score = result.score.form(1) + "%"@;
    assert(crate::format::shortened(result@.slot, 18) == result@.slot);
    assert(crate::format::shortened(account, 30) == account);
    assert(line.subrange(21, 21 + account.len() as int) =~= account);
    assert(line.subrange(52, 52 + result.status.name().len() as int) =~= result.status.name());
    assert(line.skip(line.len() - score.len()) =~= score);
}

/// The statuses of slots are listed in the order of the results.
pub proof fn statuses_are_listed_in_order(
    a: Seq<SlotResult>,
    b: Seq<SlotResult>,
    selected: Option<Seq<char>>,
    refreshes_a: Seq<Refreshes>,
    refreshes_b: Seq<Refreshes>,
)
    requires
        refreshes_a.len() == a.len(),
        refreshes_b.len() == b.len(),
    ensures
        all_slot_lines(a + b, selected, refreshes_a + refreshes_b) == all_slot_lines(
            a,
            selected,
            refreshes_a,
        ) + all_slot_lines(b, selected, refreshes_b),
        b.len() == 1 ==> all_slot_lines(b, selected, refreshes_b) == slot_lines_of(
            b[0],
            selected,
            refreshes_b[0],
        ),
    decreases b.len(),
{
    if b.len() == 0 {
        assert(a + b =~= a);
        assert(refreshes_a + refreshes_b =~= refreshes_a);
        assert(all_slot_lines(a, selected, refreshes_a) + all_slot_lines(b, selected, refreshes_b)
            =~= all_slot_lines(a, selected, refreshes_a));
    } else {
        statuses_are_listed_in_order(
            a,
            b.drop_last(),
            selected,
            refreshes_a,
            refreshes_b.drop_last(),
        );
        assert((a + b).drop_last() =~= a + b.drop_last());
        assert((a + b).last() == b.last());
        let r = refreshes_a + refreshes_b;
        assert(r.drop_last() =~= refreshes_a + refreshes_b.drop_last());
        assert(r.last() == refreshes_b.last());
        let head = all_slot_lines(a, selected, refreshes_a);
        let tail = all_slot_lines(b.drop_last(), selected, refreshes_b.drop_last());
        let more = slot_lines_of(b.last(), selected, refreshes_b.last());
        assert((head + tail) + more =~= head + (tail + more));
        if b.len() == 1 {
            assert(tail =~= seq![]);
            assert(tail + more =~= more);
        }
    }
}

proof fn lemma_transient_count(results: Seq<SlotResult>)
    ensures
        transient_count(results) <= results.len(),
        transient_count(results) == 0 <==> forall|i: int|
            0 <= i < results.len() ==> !(#[trigger] results[i])@.is_transient(),
    decreases results.len(),
{
    if results.len() > 0 {
        lemma_transient_count(results.drop_last());
        assert forall|i: int| 0 <= i < results.len() - 1 implies results[i] == (
        #[trigger] results.drop_last()[i]) by {}
        if results.last()@.is_transient() {
            assert(results[results.len() - 1]@.is_transient());
        } else if transient_count(results) == 0 {
            assert forall|i: int| 0 <= i < results.len() implies !(
            #[trigger] results[i])@.is_transient() by {
                if i < results.len() - 1 {
                    assert(!results.drop_last()[i]@.is_transient());
                }
            }
        } else {
            let k = choose|k: int|
                0 <= k < results.drop_last().len() && (
                #[trigger] results.drop_last()[k])@.is_transient();
            assert(results[k]@.is_transient());
        }
    }
}

/// A report warns where some slot could not be checked, and only there.
pub proof fn reports_warn_of_unchecked_slots(results: Seq<SlotResult>)
    ensures
        warning_lines(results).len() > 0 <==> exists|i: int|
            0 <= i < results.len() && (#[trigger] results[i])@.is_transient(),
{
    lemma_transient_count(results);
    if transient_count(results) == 0 {
        assert(!(exists|i: int|
            0 <= i < results.len() && (#[trigger] results[i])@.is_transient()));
    }
}

/// The slot that was selected is named first, as unverified where the first result for
/// it could not be checked.
pub proof fn reports_name_the_selected_slot(results: Seq<SlotResult>, slot: Seq<char>, k: int)
    requires
        0 <= k < results.len(),
        results[k]@.slot == slot,
        forall|j: int| 0 <= j < k ==> (#[trigger] results[j])@.slot != slot,
    ensures
        selected_lines(results, None).len() == 0,
        selected_lines(results, Some(slot)).len() == 2,
        selected_lines(results, Some(slot))[0] == "selected: "@ + slot + (
        if results[k]@.is_transient() {
            " (unverified)"@
        } else {
            seq![]
        }),
        selected_lines(results, Some(slot))[1].len() == 0,
{
    lemma_unverified(results, slot, k);
    assert("selected: "@ + slot + seq![] =~= "selected: "@ + slot);
}

proof fn lemma_unverified(results: Seq<SlotResult>, slot: Seq<char>, k: int)
    requires
        0 <= k < results.len(),
        results[k]@.slot == slot,
        forall|j: int| 0 <= j < k ==> (#[trigger] results[j])@.slot != slot,
    ensures
        is_unverified(results, slot) == results[k]@.is_transient(),
    decreases k,
{
    if k > 0 {
        assert(results[0]@.slot != slot);
        let rest = results.skip(1);
        assert(rest[k - 1] == results[k]);
        assert forall|j: int| 0 <= j < k - 1 implies (#[trigger] rest[j])@.slot != slot by {
            assert(rest[j] == results[j + 1]);
        }
        lemma_unverified(rest, slot, k - 1);
    }
}

/// A slot is in order where nothing was found; else it says what is missing, the home
/// before the login, and each thing that was found follows on a line of its own.
pub proof fn audits_say_what_is_missing(
    slot: Seq<char>,
    audit: SlotLayoutAudit,
    home: Seq<char>,
    i: int,
)
    ensures
        ({
            let lines = audit_lines_of(slot, audit, home);
            let n = audit.issues@.len();
            &&& lines.len() == 1 + n
            &&& n == 0 ==> lines[0] == "  "@ + slot + ": "@ + "ok"@
            &&& n > 0 && !audit.home_exists ==> lines[0] == "  "@ + slot + ": "@ + "missing home"@
            &&& n > 0 && audit.home_exists && !audit.auth_exists ==> lines[0] == "  "@ + slot
                + ": "@ + "missing auth"@
            &&& n > 0 && audit.home_exists && audit.auth_exists ==> lines[0] == "  "@ + slot
                + ": "@ + "layout issues"@
            &&& 0 <= i < n ==> crate::text::has_suffix(
                lines[1 + i],
                ": "@ + audit.issues@[i].message@,
            )
        }),
{
    if 0 <= i < audit.issues@.len() {
        let line = audit_lines_of(slot, audit, home)[1 + i];
        let tail = ": "@ + audit.issues@[i].message@;
        assert(line == issue_line(audit.issues@[i], home));
        assert(line.skip(line.len() - tail.len()) =~= tail);
    }
}

/// Slots are reported on in their order.
pub proof fn audits_are_printed_in_order(
    paths: ManagerPaths,
    slots: Seq<Seq<char>>,
    audits: Seq<SlotLayoutAudit>,
    slot: Seq<char>,
    audit: SlotLayoutAudit,
)
    requires
        slots.len() == audits.len(),
    ensures
        all_audit_lines(paths, slots.push(slot), audits.push(audit)) == all_audit_lines(
            paths,
            slots,
            audits,
        ) + audit_lines_of(slot, audit, paths.slot_home_text(slot)),
{
    assert(slots.push(slot).drop_last() =~= slots);
    assert(audits.push(audit).drop_last() =~= audits);
}

/// The head of a check says where things are and how many slots there are, and warns
/// where there are none.
pub proof fn checks_are_headed(paths: ManagerPaths, slots: nat)
    ensures
        ({
            let lines = doctor_head(paths, slots);
            &&& lines[0] == "manager: "@ + paths.manager_dir@
            &&& lines[1] == "slots: "@ + paths.slots_dir@
            &&& lines[2] == "rotation: "@ + paths.rotation_file@
            &&& lines[3] == "configured slots: "@ + crate::numbers::decimal_of(slots)
            &&& slots > 0 ==> lines.len() == 4
            &&& slots == 0 ==> lines.len() == 5 && lines[4]
                == "warning: rotation.txt is empty or missing"@
        }),
{
}

/// A target is shown with its slots, or the rotation where it has none, its settings
/// without what is secret in them, and the names of its variables but not their values.
pub proof fn targets_are_shown_without_secrets(
    target: crate::target::TargetModel,
    keys: Seq<Seq<char>>,
    i: int,
)
    ensures
        ({
            let lines = target_lines(target, keys);
            let n = target.overrides.len();
            &&& lines[0] == "target: "@ + target.name
            &&& target.slots.len() == 0 ==> lines[1] == "slots: rotation.txt"@
            &&& target.slots.len() > 0 ==> lines[1] == "slots: "@ + crate::lines::joined(
                target.slots,
                ", "@,
            )
            &&& 0 <= i < n ==> lines[2] == "set:"@ && lines[3 + i] == "  "@ + redacted(
                target.overrides[i],
            )
            &&& keys.len() > 0 ==> lines.last() == "env: "@ + crate::lines::joined(keys, ", "@)
            &&& lines.len() == 2 + (if n > 0 {
                n + 1
            } else {
                0
            }) + (if keys.len() > 0 {
                1int
            } else {
                0int
            })
        }),
{
}

/// A merge is printed with the slots that it read and what came of it; one that was
/// only tried says so, and removes nothing.
pub proof fn merges_are_printed(report: MergeReport, i: int)
    ensures
        ({
            let lines = merge_lines(report);
            let n = report.sources@.len();
            let rest = crate::numbers::decimal_of(n) + " slot database(s) into "@
                + report.shared_sqlite_home@;
            &&& report.dry_run ==> lines[0] == "dry run: would merge "@ + rest
            &&& !report.dry_run ==> lines[0] == "merged "@ + rest
            &&& 0 <= i < n ==> lines[1 + i] == "  "@ + report.sources@[i]@
            &&& lines[(1 + n) as int] == "source thread rows: "@ + crate::numbers::decimal_of(
                report.source_threads as nat,
            )
            &&& report.dry_run ==> lines.len() == n + 3 && lines[(2 + n) as int]
                == "current shared threads: "@ + crate::numbers::decimal_of(
                report.shared_threads as nat,
            )
            &&& !report.dry_run ==> lines.len() == n + 4 && lines[(2 + n) as int]
                == "shared unique threads: "@ + crate::numbers::decimal_of(
                report.shared_threads as nat,
            ) && lines[(3 + n) as int] == "removed legacy SQLite files: "@ + crate::numbers::decimal_of(
                report.removed_legacy_files as nat,
            )
        }),
{
    let n = report.sources@.len();
    assert(crate::text::texts(report.sources@).len() == n);
    let rest = crate::numbers::decimal_of(n) + " slot database(s) into "@
        + report.shared_sqlite_home@;
    let lines = merge_lines(report);
    if report.dry_run {
        assert(lines[0] =~= "dry run: would merge "@ + rest);
    } else {
        assert(lines[0] =~= "merged "@ + rest);
    }
}

/// A calibration is printed with what it went by: the shares last, input before output.
pub proof fn calibrations_are_printed(report: CalibrationReport)
    ensures
        ({
            let lines = calibration_lines(report);
            let n = report.source_databases@.len();
            &&& lines.len() == 6
            &&& lines[0] == "saved: "@ + report.saved_to@
            &&& n == 1 ==> lines[1] == "state db: "@ + report.source_databases@[0]@
            &&& n != 1 ==> lines[1] == "state dbs: "@ + crate::numbers::decimal_of(n)
            &&& lines[2] == "rollouts: "@ + crate::numbers::decimal_of(report.source_rollouts as nat)
            &&& lines[3] == "samples: "@ + crate::numbers::decimal_of(report.samples as nat)
            &&& lines[4] == "tokens: "@ + crate::format::tokens_text(report.total_tokens as nat)
            &&& crate::text::has_prefix(
                lines[5],
                "mix: "@ + report.token_mix.uncached_input_share.hundredfold().form(2) + "%"@
                    + " uncached input, "@,
            )
            &&& crate::text::has_suffix(
                lines[5],
                report.token_mix.output_share.hundredfold().form(2) + "%"@ + " output"@,
            )
        }),
{
    let line = calibration_lines(report)[5];
    let head = "mix: "@ + report.token_mix.uncached_input_share.hundredfold().form(2) + "%"@
        + " uncached input, "@;
    let tail = report.token_mix.output_share.hundredfold().form(2) + "%"@ + " output"@;
    assert(line.take(head.len() as int) =~= head);
    assert(line.skip(line.len() - tail.len()) =~= tail);
}

/// A slot could not be checked where the first answer for it says so.
pub proof fn unchecked_slots_are_known(results: Seq<SlotResult>, slot: Seq<char>, i: int)
    requires
        0 <= i < results.len(),
        results[i]@.slot == slot,
        forall|j: int| 0 <= j < i ==> (#[trigger] results[j])@.slot != slot,
    ensures
        is_unverified(results, slot) == (results[i].status == crate::usage::SlotStatus::Error
            || results[i].status == crate::usage::SlotStatus::RateLimited),
    decreases i,
{
    if i > 0 {
        let rest = results.skip(1);
        assert(results[0]@.slot != slot);
        assert forall|j: int| 0 <= j < i - 1 implies (#[trigger] rest[j])@.slot != slot by {
            assert(rest[j] == results[j + 1]);
        }
        unchecked_slots_are_known(rest, slot, i - 1);
    }
}

} // verus!
