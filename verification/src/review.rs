//! Turning an audit's findings into what a person reads and what a profile
//! grants.
//!
//! Auditing hostile code and accepting the result would grant exactly what
//! that code did, its call home and its look through your keys included. So
//! high-risk findings are set apart, and a generated profile includes them
//! only when asked to.

use vstd::prelude::*;

use crate::config::HostEnv;
use crate::discover::source_view;
use crate::path::{render, PathView};
use crate::resolve::{label_spec, Origin, Source};
use crate::trust::{reason_spec, remedy_spec, RejectedView};
use crate::profile::{generate_profile, home_dir, profile_text};
use crate::reconcile::{copy_finding, findings_view, Finding, FindingView, RiskView};
use crate::reconcile::{kind_name, Risk};
use crate::session::{command_not_found_hint, describe, describe_spec, hint_spec, nothing_observed, nothing_observed_spec};
use crate::text::{decimal, push_decimal, push_signed, push_str, signed_decimal, string_of};

verus! {

/// Whether a finding goes into a generated profile: a high-risk one only
/// with the opt-in.
pub open spec fn wanted(f: FindingView, include_high_risk: bool) -> bool {
    include_high_risk || !(f.risk is High)
}

/// The findings a generated profile is made from, in order.
pub open spec fn selected_spec(fs: Seq<FindingView>, include_high_risk: bool) -> Seq<FindingView>
    decreases fs.len(),
{
    if fs.len() == 0 {
        seq![]
    } else {
        let rest = selected_spec(fs.drop_last(), include_high_risk);
        if wanted(fs.last(), include_high_risk) { rest.push(fs.last()) } else { rest }
    }
}

/// How many findings have a path that could not be resolved.
pub open spec fn unresolved_count(fs: Seq<FindingView>) -> nat
    decreases fs.len(),
{
    if fs.len() == 0 {
        0
    } else {
        unresolved_count(fs.drop_last()) + if fs.last().unresolved { 1nat } else { 0nat }
    }
}

/// How many resolved findings are high-risk.
pub open spec fn excluded_count(fs: Seq<FindingView>) -> nat
    decreases fs.len(),
{
    if fs.len() == 0 {
        0
    } else {
        excluded_count(fs.drop_last()) + if !fs.last().unresolved && fs.last().risk is High { 1nat } else { 0nat }
    }
}

/// The findings a generated profile is made from: all of them with the
/// opt-in, else the ones that are not high-risk.
pub fn select_findings(findings: &Vec<Finding>, include_high_risk: bool) -> (r: Vec<Finding>)
    ensures
        findings_view(r@) == selected_spec(findings_view(findings@), include_high_risk),
{
    let ghost fv = findings_view(findings@);
    let mut r: Vec<Finding> = Vec::new();
    let mut i: usize = 0;
    assert(fv.subrange(0, 0) =~= Seq::<FindingView>::empty());
    assert(findings_view(r@) =~= Seq::<FindingView>::empty());
    while i < findings.len()
        invariant
            fv == findings_view(findings@),
            i <= findings@.len(),
            findings_view(r@) == selected_spec(fv.subrange(0, i as int), include_high_risk),
        decreases findings@.len() - i,
    {
        assert(fv.subrange(0, i + 1).drop_last() =~= fv.subrange(0, i as int));
        assert(fv.subrange(0, i + 1).last() == findings@[i as int]@);
        if include_high_risk || !findings[i].risk.is_high() {
            let ghost before = findings_view(r@);
            let c = copy_finding(&findings[i]);
            r.push(c);
            assert(findings_view(r@) =~= before.push(findings@[i as int]@));
        }
        i = i + 1;
    }
    assert(fv.subrange(0, findings@.len() as int) =~= fv);
    r
}

/// How many findings have a path that could not be resolved, and how many
/// resolved ones are high-risk.
pub fn counts(findings: &Vec<Finding>) -> (r: (u64, u64))
    ensures
        r.0 == unresolved_count(findings_view(findings@)),
        r.1 == excluded_count(findings_view(findings@)),
{
    let ghost fv = findings_view(findings@);
    let mut unresolved: u64 = 0;
    let mut excluded: u64 = 0;
    let mut i: usize = 0;
    assert(fv.subrange(0, 0) =~= Seq::<FindingView>::empty());
    while i < findings.len()
        invariant
            fv == findings_view(findings@),
            i <= findings@.len(),
            unresolved == unresolved_count(fv.subrange(0, i as int)),
            excluded == excluded_count(fv.subrange(0, i as int)),
            unresolved <= i,
            excluded <= i,
        decreases findings@.len() - i,
    {
        assert(fv.subrange(0, i + 1).drop_last() =~= fv.subrange(0, i as int));
        assert(fv.subrange(0, i + 1).last() == findings@[i as int]@);
        if findings[i].unresolved {
            unresolved = unresolved + 1;
        } else if findings[i].risk.is_high() {
            excluded = excluded + 1;
        }
        i = i + 1;
    }
    assert(fv.subrange(0, findings@.len() as int) =~= fv);
    (unresolved, excluded)
}

/// Without the opt-in, no high-risk finding reaches a generated profile.
pub proof fn law_high_risk_needs_opt_in(fs: Seq<FindingView>)
    ensures
        forall|i: int| 0 <= i < selected_spec(fs, false).len() ==> !(#[trigger] selected_spec(fs, false)[i].risk is High),
    decreases fs.len(),
{
    if fs.len() > 0 {
        law_high_risk_needs_opt_in(fs.drop_last());
    }
}

/// Every finding that is not high-risk reaches a generated profile, with the
/// opt-in or without it.
pub proof fn law_routine_findings_are_kept(fs: Seq<FindingView>, include_high_risk: bool, k: int)
    requires
        0 <= k < fs.len(),
        !(fs[k].risk is High),
    ensures
        selected_spec(fs, include_high_risk).contains(fs[k]),
    decreases fs.len(),
{
    let rest = selected_spec(fs.drop_last(), include_high_risk);
    if k == fs.len() - 1 {
        assert(selected_spec(fs, include_high_risk) == rest.push(fs.last()));
        assert(rest.push(fs.last())[rest.len() as int] == fs[k]);
    } else {
        law_routine_findings_are_kept(fs.drop_last(), include_high_risk, k);
        assert(fs.drop_last()[k] == fs[k]);
        let w = choose|j: int| 0 <= j < rest.len() && rest[j] == fs[k];
        if wanted(fs.last(), include_high_risk) {
            assert(rest.push(fs.last())[w] == fs[k]);
        }
    }
}

// ---------------------------------------------------------------------------
// Generating a profile from a trace.

/// The refusal of a trace that lost accesses, without the acceptance.
pub open spec fn truncated_refusal(dropped: u64) -> Seq<char> {
    "this trace is missing "@ + decimal(dropped as nat)
        + " access(es), so a profile generated from it would grant less than the target needs; pass --accept-truncated to proceed anyway"@
}

/// What generation says on the side: how many high-risk findings were left
/// out (without the opt-in), and how many findings could not be granted
/// because their path was not resolved.
pub open spec fn generation_notes(fs: Seq<FindingView>, include_high_risk: bool) -> Seq<Seq<char>> {
    (if excluded_count(fs) > 0 && !include_high_risk {
        seq!["bailey: excluded "@ + decimal(excluded_count(fs)) + " high-risk access(es); pass --include-high-risk to add them"@]
    } else {
        seq![]
    }) + (if unresolved_count(fs) > 0 {
        seq![
            "bailey: skipped "@ + decimal(unresolved_count(fs))
                + " access(es) whose path could not be resolved, so the profile does not grant them. They are relative paths, which the recorder cannot place after the fact; audit the target by its absolute path to resolve them."@,
        ]
    } else {
        seq![]
    })
}

/// The comment lines a generated profile starts with: that the trace was
/// incomplete, that it grants only what the named base did not, and that
/// the environment is not carried over.
pub open spec fn generation_header(dropped: u64, base: Option<Seq<char>>, carries_env: bool) -> Seq<char> {
    (if dropped > 0 {
        "# Generated from an incomplete trace: "@ + decimal(dropped as nat) + " access(es) were not recorded.\n"@
    } else {
        seq![]
    }) + (match base {
        Some(b) => "# Grants what `"@ + b + "` did not. Use it alongside that, not instead of it.\n"@,
        None => seq![],
    }) + (if carries_env {
        "# The environment is not generated: `[env]` settings such as PATH are not accesses, so nothing in a trace can imply them. Carry them over yourself.\n"@
    } else {
        seq![]
    })
}

/// What generating a profile from a reconciled trace gives: the refusal of a
/// trace that lost accesses unless that was accepted; else the notes for the
/// user and the profile text. `base` is the policy the trace was reconciled
/// against, as the command line named it, and `carries_env` whether that
/// policy sets environment variables.
pub open spec fn generation_spec(
    dropped: u64,
    accept_truncated: bool,
    fs: Seq<FindingView>,
    include_high_risk: bool,
    base: Option<Seq<char>>,
    carries_env: bool,
    env: HostEnv,
) -> Result<(Seq<Seq<char>>, Seq<char>), Seq<char>> {
    if dropped > 0 && !accept_truncated {
        Err(truncated_refusal(dropped))
    } else {
        Ok((
            generation_notes(fs, include_high_risk),
            generation_header(dropped, base, carries_env) + profile_text(selected_spec(fs, include_high_risk), home_dir(env)),
        ))
    }
}

/// Whether a trace may be turned into a profile: one missing accesses is
/// refused, with why, unless the caller accepts that.
pub fn truncation_check(dropped: u64, accept_truncated: bool) -> (r: Option<String>)
    ensures
        match r {
            Some(m) => dropped > 0 && !accept_truncated && m@ == truncated_refusal(dropped),
            None => !(dropped > 0 && !accept_truncated),
        },
{
    if dropped > 0 && !accept_truncated {
        let mut out: Vec<char> = Vec::new();
        push_str(&mut out, "this trace is missing ");
        push_decimal(&mut out, dropped);
        push_str(
            &mut out,
            " access(es), so a profile generated from it would grant less than the target needs; pass --accept-truncated to proceed anyway",
        );
        Some(string_of(&out))
    } else {
        None
    }
}

/// Generates a profile from a reconciled trace.
pub fn generation(
    dropped: u64,
    accept_truncated: bool,
    findings: &Vec<Finding>,
    include_high_risk: bool,
    base: Option<String>,
    carries_env: bool,
    env: &HostEnv,
) -> (r: Result<(Vec<String>, String), String>)
    ensures
        match r {
            Ok((notes, text)) => generation_spec(
                dropped,
                accept_truncated,
                findings_view(findings@),
                include_high_risk,
                match base { Some(b) => Some(b@), None => None },
                carries_env,
                *env,
            ) == Ok::<(Seq<Seq<char>>, Seq<char>), Seq<char>>((crate::merge::strs(notes@), text@)),
            Err(e) => generation_spec(
                dropped,
                accept_truncated,
                findings_view(findings@),
                include_high_risk,
                match base { Some(b) => Some(b@), None => None },
                carries_env,
                *env,
            ) == Err::<(Seq<Seq<char>>, Seq<char>), Seq<char>>(e@),
        },
{
    match truncation_check(dropped, accept_truncated) {
        Some(refusal) => {
            return Err(refusal);
        },
        None => {},
    }
    let (unresolved, excluded) = counts(findings);
    let ghost fv = findings_view(findings@);
    let mut notes: Vec<String> = Vec::new();
    if excluded > 0 && !include_high_risk {
        let mut out: Vec<char> = Vec::new();
        push_str(&mut out, "bailey: excluded ");
        push_decimal(&mut out, excluded);
        push_str(&mut out, " high-risk access(es); pass --include-high-risk to add them");
        notes.push(string_of(&out));
    }
    let ghost first = crate::merge::strs(notes@);
    assert(first =~= (if excluded_count(fv) > 0 && !include_high_risk {
        seq!["bailey: excluded "@ + decimal(excluded_count(fv)) + " high-risk access(es); pass --include-high-risk to add them"@]
    } else {
        seq![]
    }));
    if unresolved > 0 {
        let mut out: Vec<char> = Vec::new();
        push_str(&mut out, "bailey: skipped ");
        push_decimal(&mut out, unresolved);
        push_str(
            &mut out,
            " access(es) whose path could not be resolved, so the profile does not grant them. They are relative paths, which the recorder cannot place after the fact; audit the target by its absolute path to resolve them.",
        );
        let s = string_of(&out);
        notes.push(s);
        assert(crate::merge::strs(notes@) =~= first.push(s@));
    }
    assert(crate::merge::strs(notes@) =~= generation_notes(fv, include_high_risk));
    let mut text: Vec<char> = Vec::new();
    if dropped > 0 {
        push_str(&mut text, "# Generated from an incomplete trace: ");
        push_decimal(&mut text, dropped);
        push_str(&mut text, " access(es) were not recorded.\n");
    }
    match &base {
        Some(b) => {
            push_str(&mut text, "# Grants what `");
            push_str(&mut text, b.as_str());
            push_str(&mut text, "` did not. Use it alongside that, not instead of it.\n");
        },
        None => {},
    }
    if carries_env {
        push_str(
            &mut text,
            "# The environment is not generated: `[env]` settings such as PATH are not accesses, so nothing in a trace can imply them. Carry them over yourself.\n",
        );
    }
    let ghost head = text@;
    proof {
        reveal_strlit("");
    }
    assert(head =~= generation_header(dropped, match base { Some(b) => Some(b@), None => None }, carries_env));
    let selected = select_findings(findings, include_high_risk);
    let profile = generate_profile(&selected, env);
    push_str(&mut text, profile.as_str());
    Ok((notes, string_of(&text)))
}

// ---------------------------------------------------------------------------
// The findings of an audit, as a person reads them.

/// Which group of findings a line is in: high-risk, routine, or unresolved.
pub open spec fn in_group(f: FindingView, group: u8) -> bool {
    if group == 0 {
        !f.unresolved && f.risk is High
    } else if group == 1 {
        !f.unresolved && !(f.risk is High)
    } else {
        f.unresolved
    }
}

/// A finding's line in its group: its kind, what it touched, and for a
/// high-risk one the reason.
pub open spec fn finding_line(f: FindingView, group: u8) -> Seq<char> {
    "  ["@ + kind_name(f.kind) + "] "@ + describe_spec(f) + if group == 0 {
        " ("@ + match f.risk { RiskView::High(why) => why, RiskView::Low => seq![] } + ")"@
    } else {
        seq![]
    }
}

/// The lines of a group's findings, in order.
pub open spec fn group_lines(fs: Seq<FindingView>, group: u8) -> Seq<Seq<char>>
    decreases fs.len(),
{
    if fs.len() == 0 {
        seq![]
    } else {
        let rest = group_lines(fs.drop_last(), group);
        if in_group(fs.last(), group) { rest.push(finding_line(fs.last(), group)) } else { rest }
    }
}

/// A titled section after a blank line, or nothing for no lines.
pub open spec fn section(title: Seq<char>, lines: Seq<Seq<char>>) -> Seq<Seq<char>> {
    if lines.len() == 0 { seq![] } else { seq![seq![], title] + lines }
}

/// The report of an audit's findings, by line: with nothing ungranted, what
/// that does and does not say given the exit status; otherwise a warning
/// for a failed run, the count, and the findings in three groups, high-risk
/// first.
pub open spec fn findings_lines(fs: Seq<FindingView>, exit_code: i32) -> Seq<Seq<char>> {
    if fs.len() == 0 {
        seq![nothing_observed_spec(exit_code)]
    } else {
        (if exit_code != 0 {
            seq!["audit: the target exited "@ + signed_decimal(exit_code as int) + ", so this trace may stop short of what it needs"@]
                + match hint_spec(exit_code) { Some(h) => seq![h], None => seq![] }
        } else {
            seq![]
        }) + seq!["audit: "@ + decimal(fs.len()) + " ungranted access(es) observed"@]
            + section("HIGH RISK (review before granting):"@, group_lines(fs, 0))
            + section("routine (safe to grant):"@, group_lines(fs, 1))
            + section("unresolved (relative paths whose directory could not be read):"@, group_lines(fs, 2))
    }
}

fn kind_text(k: crate::event::AccessKind) -> (r: &'static str)
    ensures
        r@ == kind_name(k),
{
    match k {
        crate::event::AccessKind::Read => "Read",
        crate::event::AccessKind::Write => "Write",
        crate::event::AccessKind::Execute => "Execute",
        crate::event::AccessKind::Connect => "Connect",
        crate::event::AccessKind::Bind => "Bind",
    }
}

/// The lines of one group of findings.
fn lines_of_group(findings: &Vec<Finding>, group: u8) -> (r: Vec<String>)
    ensures
        crate::merge::strs(r@) == group_lines(findings_view(findings@), group),
{
    let ghost fv = findings_view(findings@);
    let mut r: Vec<String> = Vec::new();
    let mut i: usize = 0;
    assert(fv.subrange(0, 0) =~= Seq::<FindingView>::empty());
    assert(crate::merge::strs(r@) =~= Seq::<Seq<char>>::empty());
    while i < findings.len()
        invariant
            fv == findings_view(findings@),
            i <= findings@.len(),
            crate::merge::strs(r@) == group_lines(fv.subrange(0, i as int), group),
        decreases findings@.len() - i,
    {
        assert(fv.subrange(0, i + 1).drop_last() =~= fv.subrange(0, i as int));
        let f = &findings[i];
        assert(fv.subrange(0, i + 1).last() == f@);
        let high = f.risk.is_high();
        let member = if group == 0 {
            !f.unresolved && high
        } else if group == 1 {
            !f.unresolved && !high
        } else {
            f.unresolved
        };
        if member {
            let mut line: Vec<char> = Vec::new();
            push_str(&mut line, "  [");
            push_str(&mut line, kind_text(f.kind));
            push_str(&mut line, "] ");
            push_str(&mut line, describe(f).as_str());
            if group == 0 {
                push_str(&mut line, " (");
                match &f.risk {
                    Risk::High(why) => push_str(&mut line, why.as_str()),
                    Risk::Low => {},
                }
                push_str(&mut line, ")");
            }
            proof {
                reveal_strlit("");
            }
            assert(line@ =~= finding_line(f@, group));
            let ghost before = crate::merge::strs(r@);
            let t = string_of(&line);
            r.push(t);
            assert(crate::merge::strs(r@) =~= before.push(t@));
        }
        i = i + 1;
    }
    assert(fv.subrange(0, findings@.len() as int) =~= fv);
    r
}

/// Appends a titled section after a blank line, unless it has no lines.
fn push_section(out: &mut Vec<String>, title: &str, lines: Vec<String>)
    ensures
        crate::merge::strs(final(out)@) == crate::merge::strs(old(out)@) + section(title@, crate::merge::strs(lines@)),
{
    let ghost start = crate::merge::strs(out@);
    if lines.len() == 0 {
        assert(crate::merge::strs(out@) =~= start + section(title@, crate::merge::strs(lines@)));
        return;
    }
    out.push(String::new());
    out.push(crate::text::owned(title));
    let ghost mid = crate::merge::strs(out@);
    assert(mid =~= start + seq![Seq::<char>::empty(), title@]);
    let mut i: usize = 0;
    while i < lines.len()
        invariant
            i <= lines@.len(),
            crate::merge::strs(out@) == mid + crate::merge::strs(lines@).subrange(0, i as int),
        decreases lines@.len() - i,
    {
        let ghost before = crate::merge::strs(out@);
        let t = crate::text::owned(lines[i].as_str());
        out.push(t);
        assert(crate::merge::strs(out@) =~= before.push(lines@[i as int]@));
        assert(crate::merge::strs(out@) =~= mid + crate::merge::strs(lines@).subrange(0, i + 1));
        i = i + 1;
    }
    assert(crate::merge::strs(lines@).subrange(0, lines@.len() as int) =~= crate::merge::strs(lines@));
    assert(crate::merge::strs(out@) =~= start + section(title@, crate::merge::strs(lines@)));
}

/// The report of an audit's findings, by line.
pub fn findings_text(findings: &Vec<Finding>, exit_code: i32) -> (r: Vec<String>)
    ensures
        crate::merge::strs(r@) == findings_lines(findings_view(findings@), exit_code),
{
    let mut out: Vec<String> = Vec::new();
    if findings.len() == 0 {
        out.push(nothing_observed(exit_code));
        assert(crate::merge::strs(out@) =~= findings_lines(findings_view(findings@), exit_code));
        return out;
    }
    if exit_code != 0 {
        let mut line: Vec<char> = Vec::new();
        push_str(&mut line, "audit: the target exited ");
        push_signed(&mut line, exit_code);
        push_str(&mut line, ", so this trace may stop short of what it needs");
        out.push(string_of(&line));
        match command_not_found_hint(exit_code) {
            Some(h) => out.push(h),
            None => {},
        }
    }
    let ghost head = crate::merge::strs(out@);
    assert(head =~= (if exit_code != 0 {
        seq!["audit: the target exited "@ + signed_decimal(exit_code as int) + ", so this trace may stop short of what it needs"@]
            + match hint_spec(exit_code) { Some(h) => seq![h], None => seq![] }
    } else {
        seq![]
    }));
    let mut count: Vec<char> = Vec::new();
    push_str(&mut count, "audit: ");
    push_decimal(&mut count, findings.len() as u64);
    push_str(&mut count, " ungranted access(es) observed");
    let c = string_of(&count);
    out.push(c);
    assert(crate::merge::strs(out@) =~= head.push(c@));
    push_section(&mut out, "HIGH RISK (review before granting):", lines_of_group(findings, 0));
    push_section(&mut out, "routine (safe to grant):", lines_of_group(findings, 1));
    push_section(&mut out, "unresolved (relative paths whose directory could not be read):", lines_of_group(findings, 2));
    assert(crate::merge::strs(out@) =~= findings_lines(findings_view(findings@), exit_code));
    out
}

// ---------------------------------------------------------------------------
// The config layers behind a policy, as a person reads them.

/// A layer's line: its path and how it was found, and why it is not applied
/// when it is not.
pub open spec fn source_line(s: (PathView, Origin, Option<RejectedView>)) -> Seq<char> {
    "  "@ + render(s.0) + " ("@ + label_spec(s.1) + ")"@ + match s.2 {
        Some(r) => " [not applied: "@ + reason_spec(r) + "]"@,
        None => seq![],
    }
}

/// The lines of the layers, in order.
pub open spec fn source_lines(ss: Seq<(PathView, Origin, Option<RejectedView>)>) -> Seq<Seq<char>>
    decreases ss.len(),
{
    if ss.len() == 0 { seq![] } else { source_lines(ss.drop_last()).push(source_line(ss.last())) }
}

/// What the user can run to apply each skipped layer that has a remedy.
pub open spec fn remedy_lines(ss: Seq<(PathView, Origin, Option<RejectedView>)>, prefix: Seq<char>) -> Seq<Seq<char>>
    decreases ss.len(),
{
    if ss.len() == 0 {
        seq![]
    } else {
        let rest = remedy_lines(ss.drop_last(), prefix);
        match ss.last().2 {
            Some(r) => match remedy_spec(r, ss.last().0) {
                Some(m) => rest.push(prefix + m),
                None => rest,
            },
            None => rest,
        }
    }
}

/// The report of the layers behind a policy: the profile base, each layer
/// from low to high precedence with why it is not applied when it is not,
/// and what to run to apply the skipped ones.
pub open spec fn sources_lines(profile: Seq<char>, ss: Seq<(PathView, Origin, Option<RejectedView>)>) -> Seq<Seq<char>> {
    seq!["profile base: "@ + profile] + if ss.len() == 0 {
        seq!["config layers: (none)"@, seq![]]
    } else {
        seq!["config layers (low to high precedence):"@] + source_lines(ss) + section(
            "to apply what was skipped:"@,
            remedy_lines(ss, "  "@),
        ) + seq![seq![]]
    }
}

/// The layers as plain values.
pub open spec fn sources_view(v: Seq<Source>) -> Seq<(PathView, Origin, Option<RejectedView>)> {
    v.map_values(|s: Source| source_view(s))
}

/// The line of one layer.
fn line_of_source(s: &Source) -> (r: String)
    ensures
        r@ == source_line(source_view(*s)),
{
    let mut line: Vec<char> = Vec::new();
    push_str(&mut line, "  ");
    push_str(&mut line, s.path.display().as_str());
    push_str(&mut line, " (");
    push_str(&mut line, s.origin.label());
    push_str(&mut line, ")");
    match &s.rejected {
        Some(r) => {
            push_str(&mut line, " [not applied: ");
            push_str(&mut line, r.reason().as_str());
            push_str(&mut line, "]");
        },
        None => {},
    }
    proof {
        reveal_strlit("");
    }
    assert(line@ =~= source_line(source_view(*s)));
    string_of(&line)
}

/// The remedies of the skipped layers, each after `prefix`.
fn remedies_of(sources: &Vec<Source>, prefix: &str) -> (r: Vec<String>)
    ensures
        crate::merge::strs(r@) == remedy_lines(sources_view(sources@), prefix@),
{
    let ghost sv = sources_view(sources@);
    let mut r: Vec<String> = Vec::new();
    let mut i: usize = 0;
    assert(sv.subrange(0, 0) =~= Seq::<(PathView, Origin, Option<RejectedView>)>::empty());
    assert(crate::merge::strs(r@) =~= Seq::<Seq<char>>::empty());
    while i < sources.len()
        invariant
            sv == sources_view(sources@),
            i <= sources@.len(),
            crate::merge::strs(r@) == remedy_lines(sv.subrange(0, i as int), prefix@),
        decreases sources@.len() - i,
    {
        assert(sv.subrange(0, i + 1).drop_last() =~= sv.subrange(0, i as int));
        assert(sv.subrange(0, i + 1).last() == source_view(sources@[i as int]));
        match &sources[i].rejected {
            Some(rej) => match rej.remedy(&sources[i].path) {
                Some(m) => {
                    let mut line: Vec<char> = Vec::new();
                    push_str(&mut line, prefix);
                    push_str(&mut line, m.as_str());
                    let ghost before = crate::merge::strs(r@);
                    let t = string_of(&line);
                    r.push(t);
                    assert(crate::merge::strs(r@) =~= before.push(t@));
                },
                None => {},
            },
            None => {},
        }
        i = i + 1;
    }
    assert(sv.subrange(0, sources@.len() as int) =~= sv);
    r
}

/// The report of the layers behind a policy, by line.
pub fn sources_text(profile: &str, sources: &Vec<Source>) -> (r: Vec<String>)
    ensures
        crate::merge::strs(r@) == sources_lines(profile@, sources_view(sources@)),
{
    let ghost sv = sources_view(sources@);
    let mut out: Vec<String> = Vec::new();
    let mut first: Vec<char> = Vec::new();
    push_str(&mut first, "profile base: ");
    push_str(&mut first, profile);
    out.push(string_of(&first));
    if sources.len() == 0 {
        out.push(crate::text::owned("config layers: (none)"));
        out.push(String::new());
        assert(crate::merge::strs(out@) =~= sources_lines(profile@, sv));
        return out;
    }
    out.push(crate::text::owned("config layers (low to high precedence):"));
    let ghost head = crate::merge::strs(out@);
    let mut i: usize = 0;
    assert(sv.subrange(0, 0) =~= Seq::<(PathView, Origin, Option<RejectedView>)>::empty());
    assert(head =~= head + source_lines(sv.subrange(0, 0)));
    while i < sources.len()
        invariant
            sv == sources_view(sources@),
            i <= sources@.len(),
            crate::merge::strs(out@) == head + source_lines(sv.subrange(0, i as int)),
        decreases sources@.len() - i,
    {
        assert(sv.subrange(0, i + 1).drop_last() =~= sv.subrange(0, i as int));
        assert(sv.subrange(0, i + 1).last() == source_view(sources@[i as int]));
        let ghost before = crate::merge::strs(out@);
        let t = line_of_source(&sources[i]);
        out.push(t);
        assert(crate::merge::strs(out@) =~= before.push(t@));
        i = i + 1;
    }
    assert(sv.subrange(0, sources@.len() as int) =~= sv);
    push_section(&mut out, "to apply what was skipped:", remedies_of(sources, "  "));
    let ghost body = crate::merge::strs(out@);
    out.push(String::new());
    assert(crate::merge::strs(out@) =~= body.push(Seq::<char>::empty()));
    assert(crate::merge::strs(out@) =~= sources_lines(profile@, sv));
    out
}

/// A warning for a layer that is not applied, and what to run about it.
pub open spec fn untrusted_lines(ss: Seq<(PathView, Origin, Option<RejectedView>)>) -> Seq<Seq<char>>
    decreases ss.len(),
{
    if ss.len() == 0 {
        seq![]
    } else {
        let rest = untrusted_lines(ss.drop_last());
        let s = ss.last();
        match s.2 {
            Some(r) => rest.push("bailey: not applying `"@ + render(s.0) + "`: "@ + reason_spec(r)) + match remedy_spec(r, s.0) {
                Some(m) => seq!["bailey:   "@ + m],
                None => seq![],
            },
            None => rest,
        }
    }
}

/// The warnings of a run about the layers it does not apply, each with
/// what to run about it where there is something.
pub fn untrusted_report(sources: &Vec<Source>) -> (r: Vec<String>)
    ensures
        crate::merge::strs(r@) == untrusted_lines(sources_view(sources@)),
{
    let ghost sv = sources_view(sources@);
    let mut r: Vec<String> = Vec::new();
    let mut i: usize = 0;
    assert(sv.subrange(0, 0) =~= Seq::<(PathView, Origin, Option<RejectedView>)>::empty());
    assert(crate::merge::strs(r@) =~= Seq::<Seq<char>>::empty());
    while i < sources.len()
        invariant
            sv == sources_view(sources@),
            i <= sources@.len(),
            crate::merge::strs(r@) == untrusted_lines(sv.subrange(0, i as int)),
        decreases sources@.len() - i,
    {
        assert(sv.subrange(0, i + 1).drop_last() =~= sv.subrange(0, i as int));
        assert(sv.subrange(0, i + 1).last() == source_view(sources@[i as int]));
        match &sources[i].rejected {
            Some(rej) => {
                let mut line: Vec<char> = Vec::new();
                push_str(&mut line, "bailey: not applying `");
                push_str(&mut line, sources[i].path.display().as_str());
                push_str(&mut line, "`: ");
                push_str(&mut line, rej.reason().as_str());
                let ghost before = crate::merge::strs(r@);
                let t = string_of(&line);
                r.push(t);
                assert(crate::merge::strs(r@) =~= before.push(t@));
                match rej.remedy(&sources[i].path) {
                    Some(m) => {
                        let mut more: Vec<char> = Vec::new();
                        push_str(&mut more, "bailey:   ");
                        push_str(&mut more, m.as_str());
                        let ghost mid = crate::merge::strs(r@);
                        let u = string_of(&more);
                        r.push(u);
                        assert(crate::merge::strs(r@) =~= mid.push(u@));
                    },
                    None => {},
                }
            },
            None => {},
        }
        i = i + 1;
    }
    assert(sv.subrange(0, sources@.len() as int) =~= sv);
    r
}

} // verus!
