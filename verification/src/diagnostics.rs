//! Human-readable diagnostics for every error and report of the library.
//!
//! Each `message` returns exactly the text its spec function describes, so a
//! diagnostic is a pure function of the error's fields.

use vstd::prelude::*;

use crate::builder::{BFault, BuildError};
use crate::catalog::{NumericPath, PortDir, SignalDomain};
use crate::text::{decimal, decimal_int, push_i64, push_str, push_u64};
use crate::runtime_error::{
    BindError, BindRestoreError, CookbookError, HandleError, PresetError, RecipeEndpoint, RecipeError, RecipeResolveError,
    RestoreError, ScenarioError,
};
use crate::validate::{BudgetWarning, VFault, ValidateReport, ValidationError, WFault};

verus! {

/// `parts` joined by `sep`.
pub open spec fn join(parts: Seq<Seq<char>>, sep: Seq<char>) -> Seq<char>
    decreases parts.len(),
{
    if parts.len() == 0 {
        Seq::empty()
    } else if parts.len() == 1 {
        parts[0]
    } else {
        join(parts.drop_last(), sep) + sep + parts.last()
    }
}

/// The quoted reference `'knot.port'`.
pub open spec fn port_ref_text(knot: Seq<char>, port: Seq<char>) -> Seq<char> {
    "'"@ + knot + "."@ + port + "'"@
}

pub open spec fn dir_text(d: PortDir) -> Seq<char> {
    match d {
        PortDir::In => "input"@,
        PortDir::Out => "output"@,
    }
}

pub open spec fn numeric_text(p: NumericPath) -> Seq<char> {
    match p {
        NumericPath::F32 => "F32"@,
        NumericPath::I32Q16 => "I32Q16"@,
    }
}

pub open spec fn domain_text(d: SignalDomain) -> Seq<char> {
    match d {
        SignalDomain::Bool => "Bool"@,
        SignalDomain::Level => "Level"@,
        SignalDomain::Count => "Count"@,
    }
}

/// ` at knot 'k'` when a knot is named, else nothing.
pub open spec fn at_knot_text(k: Option<Seq<char>>) -> Seq<char> {
    match k {
        Some(k) => " at knot '"@ + k + "'"@,
        None => Seq::empty(),
    }
}

pub open spec fn unknown_port_text(knot: Seq<char>, port: Seq<char>, expected: Seq<Seq<char>>) -> Seq<char> {
    "unknown port "@ + port_ref_text(knot, port) + " (expected one of: "@ + join(expected, ", "@) + ")"@
}

pub open spec fn wrong_direction_text(knot: Seq<char>, port: Seq<char>, expected: PortDir, actual: PortDir) -> Seq<char> {
    "port "@ + port_ref_text(knot, port) + " is an "@ + dir_text(actual) + " port, expected an "@ + dir_text(expected)
        + " port"@
}

pub open spec fn numeric_mismatch_text(expected: NumericPath, actual: NumericPath) -> Seq<char> {
    "numeric path mismatch: expected "@ + numeric_text(expected) + ", found "@ + numeric_text(actual)
}

pub open spec fn overflow_text(what: Seq<char>, actual: nat, limit: nat) -> Seq<char> {
    what + " count "@ + decimal(actual) + " exceeds representation limit "@ + decimal(limit)
}

/// The diagnostic of a validation failure.
pub open spec fn validation_text(f: VFault) -> Seq<char> {
    match f {
        VFault::InvalidWeaveId { weave_id, reason } => "invalid weave id '"@ + weave_id + "': "@ + reason,
        VFault::InvalidKnotId { knot_id, reason } => "invalid knot id '"@ + knot_id + "': "@ + reason,
        VFault::EmptyWeave { weave_id } => "weave '"@ + weave_id + "' has no knots"@,
        VFault::DuplicateKnotId { knot_id } => "duplicate knot id '"@ + knot_id + "'"@,
        VFault::UnknownKnot { knot_id } => "unknown knot '"@ + knot_id + "'"@,
        VFault::UnknownPort { knot_id, port, expected } => unknown_port_text(knot_id, port, expected),
        VFault::WrongPortDirection { knot_id, port, expected, actual } => wrong_direction_text(knot_id, port, expected, actual),
        VFault::FanIn { knot_id, port } => "input port "@ + port_ref_text(knot_id, port) + " has more than one incoming thread"@,
        VFault::Cycle { at_knot } => "weave contains a cycle"@ + at_knot_text(at_knot),
        VFault::UnconnectedRequired { knot_id, port } => "required input "@ + port_ref_text(knot_id, port) + " is not connected"@,
        VFault::BudgetExceeded { metric, actual, limit, at_knot } => metric + " "@ + decimal(actual) + " exceeds budget "@
            + decimal(limit) + at_knot_text(at_knot),
        VFault::NumericMismatch { expected, actual } => numeric_mismatch_text(expected, actual),
        VFault::InvalidParameter { knot_id, parameter, reason } => "invalid parameter '"@ + parameter + "' on knot '"@ + knot_id
            + "': "@ + reason,
        VFault::RepresentationOverflow { what, actual, limit } => overflow_text(what, actual, limit),
        VFault::InvalidPatternId { pattern_id, reason } => "invalid pattern id '"@ + pattern_id + "': "@ + reason,
        VFault::DuplicateExport { export } => "duplicate pattern export '"@ + export + "'"@,
        VFault::DuplicatePatternInput { knot_id, port, first_export, duplicate_export } => "pattern exports '"@ + first_export
            + "' and '"@ + duplicate_export + "' both target input "@ + port_ref_text(knot_id, port),
        VFault::PatternInputAlreadyConnected { export, knot_id, port } => "pattern input export '"@ + export
            + "' targets already connected input "@ + port_ref_text(knot_id, port),
    }
}

/// The diagnostic of a build failure.
pub open spec fn build_text(f: BFault) -> Seq<char> {
    match f {
        BFault::InvalidId { id, reason } => "invalid id '"@ + id + "': "@ + reason,
        BFault::DuplicateKnotId { knot_id } => "duplicate knot id '"@ + knot_id + "'"@,
        BFault::ForeignHandle => "handle belongs to a different weave builder"@,
        BFault::UnknownPort { knot_id, port, expected } => unknown_port_text(knot_id, port, expected),
        BFault::WrongPortDirection { knot_id, port, expected, actual } => wrong_direction_text(knot_id, port, expected, actual),
        BFault::UnknownExport { instance_id, export, direction } => "pattern instance '"@ + instance_id + "' has no "@ + dir_text(
            direction,
        ) + " export '"@ + export + "'"@,
        BFault::NumericMismatch { expected, actual } => numeric_mismatch_text(expected, actual),
        BFault::RepresentationOverflow { what, actual, limit } => overflow_text(what, actual, limit),
        BFault::Validation(v) => validation_text(v),
    }
}

/// The diagnostic of a soft-budget warning.
pub open spec fn warning_text(w: WFault) -> Seq<char> {
    match w {
        WFault::SoftKnots { count, soft } => "soft knot budget: "@ + decimal(count) + " knots (soft "@ + decimal(soft) + ")"@,
        WFault::SoftThreads { count, soft } => "soft thread budget: "@ + decimal(count) + " threads (soft "@ + decimal(soft)
            + ")"@,
        WFault::SoftChainDepth { depth, soft, at_knot } => "soft chain depth: "@ + decimal(depth) + " edges at knot '"@
            + at_knot + "' (soft "@ + decimal(soft) + ")"@,
        WFault::SoftFanOut { fan_out, soft, at_knot } => "soft fan-out: "@ + decimal(fan_out) + " from knot '"@ + at_knot
            + "' (soft "@ + decimal(soft) + ")"@,
    }
}

/// The diagnostic of a validation report: `validate ok`, or its warnings
/// joined by `; `.
pub open spec fn report_text(ws: Seq<WFault>) -> Seq<char> {
    if ws.len() == 0 {
        "validate ok"@
    } else {
        join(ws.map_values(|w: WFault| warning_text(w)), "; "@)
    }
}

fn push_port_ref(s: &mut String, knot: &str, port: &str)
    ensures
        final(s)@ == old(s)@ + port_ref_text(knot@, port@),
{
    push_str(s, "'");
    push_str(s, knot);
    push_str(s, ".");
    push_str(s, port);
    push_str(s, "'");
    assert(final(s)@ =~= old(s)@ + port_ref_text(knot@, port@));
}

fn dir_str(d: PortDir) -> (r: &'static str)
    ensures
        r@ == dir_text(d),
{
    match d {
        PortDir::In => "input",
        PortDir::Out => "output",
    }
}

fn numeric_str(p: NumericPath) -> (r: &'static str)
    ensures
        r@ == numeric_text(p),
{
    match p {
        NumericPath::F32 => "F32",
        NumericPath::I32Q16 => "I32Q16",
    }
}

/// The name of a signal domain.
pub fn domain_str(d: SignalDomain) -> (r: &'static str)
    ensures
        r@ == domain_text(d),
{
    match d {
        SignalDomain::Bool => "Bool",
        SignalDomain::Level => "Level",
        SignalDomain::Count => "Count",
    }
}

fn push_at_knot(s: &mut String, k: &Option<String>)
    ensures
        final(s)@ == old(s)@ + at_knot_text(crate::validate::opt_view(*k)),
{
    match k {
        Some(k) => {
            push_str(s, " at knot '");
            push_str(s, k.as_str());
            push_str(s, "'");
            assert(final(s)@ =~= old(s)@ + at_knot_text(crate::validate::opt_view(Some(*k))));
        },
        None => {
            assert(final(s)@ =~= old(s)@ + at_knot_text(None));
        },
    }
}

fn push_joined(s: &mut String, parts: &Vec<String>, sep: &str)
    ensures
        final(s)@ == old(s)@ + join(parts@.map_values(|p: String| p@), sep@),
{
    let ghost views = parts@.map_values(|p: String| p@);
    let mut i: usize = 0;
    while i < parts.len()
        invariant
            i <= parts@.len(),
            views == parts@.map_values(|p: String| p@),
            s@ == old(s)@ + join(views.subrange(0, i as int), sep@),
        decreases parts@.len() - i,
    {
        let ghost before = s@;
        if i > 0 {
            push_str(s, sep);
        }
        push_str(s, parts[i].as_str());
        proof {
            let pre = views.subrange(0, i as int);
            let next = views.subrange(0, i + 1);
            assert(next.drop_last() =~= pre);
            assert(next.last() == parts@[i as int]@);
            if i == 0 {
                assert(join(pre, sep@) =~= Seq::<char>::empty());
                assert(s@ =~= old(s)@ + join(next, sep@));
            } else {
                assert(s@ =~= old(s)@ + join(next, sep@));
            }
        }
        i = i + 1;
    }
    assert(views.subrange(0, parts@.len() as int) =~= views);
}

fn push_unknown_port(s: &mut String, knot: &str, port: &str, expected: &Vec<String>)
    ensures
        final(s)@ == old(s)@ + unknown_port_text(knot@, port@, expected@.map_values(|p: String| p@)),
{
    push_str(s, "unknown port ");
    push_port_ref(s, knot, port);
    push_str(s, " (expected one of: ");
    push_joined(s, expected, ", ");
    push_str(s, ")");
    assert(final(s)@ =~= old(s)@ + unknown_port_text(knot@, port@, expected@.map_values(|p: String| p@)));
}

fn push_wrong_direction(s: &mut String, knot: &str, port: &str, expected: PortDir, actual: PortDir)
    ensures
        final(s)@ == old(s)@ + wrong_direction_text(knot@, port@, expected, actual),
{
    push_str(s, "port ");
    push_port_ref(s, knot, port);
    push_str(s, " is an ");
    push_str(s, dir_str(actual));
    push_str(s, " port, expected an ");
    push_str(s, dir_str(expected));
    push_str(s, " port");
    assert(final(s)@ =~= old(s)@ + wrong_direction_text(knot@, port@, expected, actual));
}

fn push_numeric_mismatch(s: &mut String, expected: NumericPath, actual: NumericPath)
    ensures
        final(s)@ == old(s)@ + numeric_mismatch_text(expected, actual),
{
    push_str(s, "numeric path mismatch: expected ");
    push_str(s, numeric_str(expected));
    push_str(s, ", found ");
    push_str(s, numeric_str(actual));
    assert(final(s)@ =~= old(s)@ + numeric_mismatch_text(expected, actual));
}

fn push_overflow(s: &mut String, what: &str, actual: usize, limit: usize)
    ensures
        final(s)@ == old(s)@ + overflow_text(what@, actual as nat, limit as nat),
{
    push_str(s, what);
    push_str(s, " count ");
    push_u64(s, actual as u64);
    push_str(s, " exceeds representation limit ");
    push_u64(s, limit as u64);
    assert(final(s)@ =~= old(s)@ + overflow_text(what@, actual as nat, limit as nat));
}

/// Append `a`, `b` and `c`.
fn push3(s: &mut String, a: &str, b: &str, c: &str)
    ensures
        final(s)@ == old(s)@ + a@ + b@ + c@,
{
    push_str(s, a);
    push_str(s, b);
    push_str(s, c);
}

impl ValidationError {
    /// The human-readable diagnostic of this failure.
    pub fn message(&self) -> (r: String)
        ensures
            r@ == validation_text(self@),
    {
        let mut s = String::new();
        match self {
            ValidationError::InvalidWeaveId { weave_id, reason } => {
                push3(&mut s, "invalid weave id '", weave_id.as_str(), "': ");
                push_str(&mut s, reason);
            },
            ValidationError::InvalidKnotId { knot_id, reason } => {
                push3(&mut s, "invalid knot id '", knot_id.as_str(), "': ");
                push_str(&mut s, reason);
            },
            ValidationError::EmptyWeave { weave_id } => {
                push3(&mut s, "weave '", weave_id.as_str(), "' has no knots");
            },
            ValidationError::DuplicateKnotId { knot_id } => {
                push3(&mut s, "duplicate knot id '", knot_id.as_str(), "'");
            },
            ValidationError::UnknownKnot { knot_id } => {
                push3(&mut s, "unknown knot '", knot_id.as_str(), "'");
            },
            ValidationError::UnknownPort { knot_id, port, expected } => {
                push_unknown_port(&mut s, knot_id.as_str(), port.as_str(), expected);
            },
            ValidationError::WrongPortDirection { knot_id, port, expected, actual } => {
                push_wrong_direction(&mut s, knot_id.as_str(), port.as_str(), *expected, *actual);
            },
            ValidationError::FanIn { knot_id, port } => {
                push_str(&mut s, "input port ");
                push_port_ref(&mut s, knot_id.as_str(), port.as_str());
                push_str(&mut s, " has more than one incoming thread");
            },
            ValidationError::Cycle { at_knot } => {
                push_str(&mut s, "weave contains a cycle");
                push_at_knot(&mut s, at_knot);
            },
            ValidationError::UnconnectedRequired { knot_id, port } => {
                push_str(&mut s, "required input ");
                push_port_ref(&mut s, knot_id.as_str(), port.as_str());
                push_str(&mut s, " is not connected");
            },
            ValidationError::BudgetExceeded { metric, actual, limit, at_knot } => {
                push_str(&mut s, metric);
                push_str(&mut s, " ");
                push_u64(&mut s, *actual);
                push_str(&mut s, " exceeds budget ");
                push_u64(&mut s, *limit);
                push_at_knot(&mut s, at_knot);
            },
            ValidationError::NumericMismatch { expected, actual } => {
                push_numeric_mismatch(&mut s, *expected, *actual);
            },
            ValidationError::InvalidParameter { knot_id, parameter, reason } => {
                push3(&mut s, "invalid parameter '", parameter, "' on knot '");
                push3(&mut s, knot_id.as_str(), "': ", reason);
            },
            ValidationError::RepresentationOverflow { what, actual, limit } => {
                push_overflow(&mut s, what, *actual, *limit);
            },
            ValidationError::InvalidPatternId { pattern_id, reason } => {
                push3(&mut s, "invalid pattern id '", pattern_id.as_str(), "': ");
                push_str(&mut s, reason);
            },
            ValidationError::DuplicateExport { export } => {
                push3(&mut s, "duplicate pattern export '", export.as_str(), "'");
            },
            ValidationError::DuplicatePatternInput { knot_id, port, first_export, duplicate_export } => {
                push3(&mut s, "pattern exports '", first_export.as_str(), "' and '");
                push3(&mut s, duplicate_export.as_str(), "' both target input ", "");
                push_port_ref(&mut s, knot_id.as_str(), port.as_str());
            },
            ValidationError::PatternInputAlreadyConnected { export, knot_id, port } => {
                push3(&mut s, "pattern input export '", export.as_str(), "' targets already connected input ");
                push_port_ref(&mut s, knot_id.as_str(), port.as_str());
            },
        }
        proof {
            reveal_strlit("");
        }
        assert(s@ =~= validation_text(self@));
        s
    }
}

impl BuildError {
    /// The human-readable diagnostic of this failure.
    pub fn message(&self) -> (r: String)
        ensures
            r@ == build_text(self@),
    {
        match self {
            BuildError::Validation(v) => v.message(),
            _ => {
                let mut s = String::new();
                match self {
                    BuildError::InvalidId { id, reason } => {
                        push3(&mut s, "invalid id '", id.as_str(), "': ");
                        push_str(&mut s, reason);
                    },
                    BuildError::DuplicateKnotId { knot_id } => {
                        push3(&mut s, "duplicate knot id '", knot_id.as_str(), "'");
                    },
                    BuildError::ForeignHandle => {
                        push_str(&mut s, "handle belongs to a different weave builder");
                    },
                    BuildError::UnknownPort { knot_id, port, expected } => {
                        push_unknown_port(&mut s, knot_id.as_str(), port.as_str(), expected);
                    },
                    BuildError::WrongPortDirection { knot_id, port, expected, actual } => {
                        push_wrong_direction(&mut s, knot_id.as_str(), port.as_str(), *expected, *actual);
                    },
                    BuildError::UnknownExport { instance_id, export, direction } => {
                        push3(&mut s, "pattern instance '", instance_id.as_str(), "' has no ");
                        push3(&mut s, dir_str(*direction), " export '", export.as_str());
                        push_str(&mut s, "'");
                    },
                    BuildError::NumericMismatch { expected, actual } => {
                        push_numeric_mismatch(&mut s, *expected, *actual);
                    },
                    BuildError::RepresentationOverflow { what, actual, limit } => {
                        push_overflow(&mut s, what, *actual, *limit);
                    },
                    BuildError::Validation(_) => {},
                }
                assert(s@ =~= build_text(self@));
                s
            },
        }
    }
}

impl BudgetWarning {
    /// The human-readable diagnostic of this warning.
    pub fn message(&self) -> (r: String)
        ensures
            r@ == warning_text(self@),
    {
        let mut s = String::new();
        match self {
            BudgetWarning::SoftKnots { count, soft } => {
                push_str(&mut s, "soft knot budget: ");
                push_u64(&mut s, *count as u64);
                push_str(&mut s, " knots (soft ");
                push_u64(&mut s, *soft as u64);
                push_str(&mut s, ")");
            },
            BudgetWarning::SoftThreads { count, soft } => {
                push_str(&mut s, "soft thread budget: ");
                push_u64(&mut s, *count as u64);
                push_str(&mut s, " threads (soft ");
                push_u64(&mut s, *soft as u64);
                push_str(&mut s, ")");
            },
            BudgetWarning::SoftChainDepth { depth, soft, at_knot } => {
                push_str(&mut s, "soft chain depth: ");
                push_u64(&mut s, *depth as u64);
                push3(&mut s, " edges at knot '", at_knot.as_str(), "' (soft ");
                push_u64(&mut s, *soft as u64);
                push_str(&mut s, ")");
            },
            BudgetWarning::SoftFanOut { fan_out, soft, at_knot } => {
                push_str(&mut s, "soft fan-out: ");
                push_u64(&mut s, *fan_out as u64);
                push3(&mut s, " from knot '", at_knot.as_str(), "' (soft ");
                push_u64(&mut s, *soft as u64);
                push_str(&mut s, ")");
            },
        }
        assert(s@ =~= warning_text(self@));
        s
    }
}

impl ValidateReport {
    /// `validate ok`, or the warnings' diagnostics joined by `; `.
    pub fn message(&self) -> (r: String)
        ensures
            r@ == report_text(self.warnings@.map_values(|w: BudgetWarning| w@)),
    {
        let ghost ws = self.warnings@.map_values(|w: BudgetWarning| w@);
        let ghost texts = ws.map_values(|w: WFault| warning_text(w));
        let mut s = String::new();
        if self.warnings.len() == 0 {
            push_str(&mut s, "validate ok");
            assert(s@ =~= report_text(ws));
            return s;
        }
        let mut i: usize = 0;
        while i < self.warnings.len()
            invariant
                i <= self.warnings@.len(),
                ws == self.warnings@.map_values(|w: BudgetWarning| w@),
                texts == ws.map_values(|w: WFault| warning_text(w)),
                s@ == join(texts.subrange(0, i as int), "; "@),
            decreases self.warnings@.len() - i,
        {
            if i > 0 {
                push_str(&mut s, "; ");
            }
            let m = self.warnings[i].message();
            push_str(&mut s, m.as_str());
            proof {
                let pre = texts.subrange(0, i as int);
                let next = texts.subrange(0, i + 1);
                assert(next.drop_last() =~= pre);
                assert(next.last() == warning_text(self.warnings@[i as int]@));
                if i == 0 {
                    assert(s@ =~= join(next, "; "@));
                } else {
                    assert(s@ =~= join(next, "; "@));
                }
            }
            i = i + 1;
        }
        assert(texts.subrange(0, self.warnings@.len() as int) =~= texts);
        s
    }
}

/// The lowest `k` hexadecimal digits of `n`, most significant first.
pub open spec fn hex_digits(n: nat, k: nat) -> Seq<char>
    decreases k,
{
    if k == 0 {
        Seq::empty()
    } else {
        hex_digits(n / 16, (k - 1) as nat).push(hex_char(n % 16))
    }
}

pub open spec fn hex_char(d: nat) -> char {
    if d < 10 {
        crate::text::digit_char(d)
    } else if d == 10 {
        'a'
    } else if d == 11 {
        'b'
    } else if d == 12 {
        'c'
    } else if d == 13 {
        'd'
    } else if d == 14 {
        'e'
    } else {
        'f'
    }
}

fn hex_str(d: u64) -> (s: &'static str)
    requires
        d < 16,
    ensures
        s@ == seq![hex_char(d as nat)],
{
    proof {
        reveal_strlit("0");
        reveal_strlit("1");
        reveal_strlit("2");
        reveal_strlit("3");
        reveal_strlit("4");
        reveal_strlit("5");
        reveal_strlit("6");
        reveal_strlit("7");
        reveal_strlit("8");
        reveal_strlit("9");
        reveal_strlit("a");
        reveal_strlit("b");
        reveal_strlit("c");
        reveal_strlit("d");
        reveal_strlit("e");
        reveal_strlit("f");
    }
    if d == 0 {
        "0"
    } else if d == 1 {
        "1"
    } else if d == 2 {
        "2"
    } else if d == 3 {
        "3"
    } else if d == 4 {
        "4"
    } else if d == 5 {
        "5"
    } else if d == 6 {
        "6"
    } else if d == 7 {
        "7"
    } else if d == 8 {
        "8"
    } else if d == 9 {
        "9"
    } else if d == 10 {
        "a"
    } else if d == 11 {
        "b"
    } else if d == 12 {
        "c"
    } else if d == 13 {
        "d"
    } else if d == 14 {
        "e"
    } else {
        "f"
    }
}

/// Append the lowest `k` hexadecimal digits of `n`.
fn push_hex(s: &mut String, n: u64, k: u64)
    ensures
        final(s)@ == old(s)@ + hex_digits(n as nat, k as nat),
    decreases k,
{
    if k > 0 {
        push_hex(s, n / 16, k - 1);
        push_str(s, hex_str(n % 16));
        assert(final(s)@ =~= old(s)@ + hex_digits(n as nat, k as nat));
    }
}

/// The diagnostic of a bind failure.
pub open spec fn bind_text(e: BindError) -> Seq<char> {
    match e {
        BindError::InvalidWeave { weave_id, source } => "cannot bind weave '"@ + weave_id@ + "': "@ + validation_text(source@),
        BindError::CapacityExceeded { weave_id, resource, count } => "cannot bind weave '"@ + weave_id@ + "': "@ + resource@
            + " count "@ + decimal(count as nat) + " exceeds runtime capacity"@,
        BindError::InvalidReference { weave_id, knot, port } => "cannot bind weave '"@ + weave_id@ + "': unresolved port "@
            + port_ref_text(knot@, port@),
        BindError::InvalidTopology { weave_id } => "cannot bind weave '"@ + weave_id@ + "': invalid topology"@,
    }
}

/// The diagnostic of a handle failure.
pub open spec fn handle_text(e: HandleError) -> Seq<char> {
    match e {
        HandleError::ForeignRuntime { handle } => handle@ + " handle belongs to a different runtime"@,
        HandleError::InvalidSense { sense } => "sense handle "@ + decimal(sense.spec_index() as nat)
            + " is invalid for this runtime"@,
        HandleError::InvalidHostPath { path } => "host path handle "@ + decimal(path.spec_index() as nat) + " is invalid"@,
        HandleError::InvalidCommand { cmd } => "command handle "@ + decimal(cmd.spec_index() as nat) + " is invalid"@,
        HandleError::InvalidKnot { knot } => "knot handle "@ + decimal(knot.spec_index() as nat) + " is invalid for this runtime"@,
        HandleError::InvalidPort { knot, port } => "port handle "@ + decimal(port.0 as nat) + " is invalid for knot "@ + decimal(
            knot.spec_index() as nat,
        ) + " in this runtime"@,
        HandleError::DomainValue { sense, domain } => "sense value for handle "@ + decimal(sense.spec_index() as nat)
            + " is invalid for "@ + domain_text(domain) + " domain"@,
    }
}

/// The diagnostic of a checkpoint restore failure.
pub open spec fn restore_text(e: RestoreError) -> Seq<char> {
    match e {
        RestoreError::UnsupportedVersion { found, supported } => "runtime snapshot format version "@ + decimal(found as nat)
            + " is unsupported (expected "@ + decimal(supported as nat) + ")"@,
        RestoreError::NumericPathMismatch { expected, found } => "runtime snapshot numeric path "@ + numeric_text(found)
            + " does not match "@ + numeric_text(expected),
        RestoreError::InvalidPhase { found } => "runtime snapshot phase "@ + decimal(found as nat) + " is not a settled frame"@,
        RestoreError::FingerprintMismatch { expected, found } => "runtime snapshot fingerprint "@ + hex_digits(found as nat, 16)
            + " does not match "@ + hex_digits(expected as nat, 16),
        RestoreError::ShapeMismatch { field, expected, found } => "runtime snapshot field '"@ + field@ + "' has length "@
            + decimal(found as nat) + ", expected "@ + decimal(expected as nat),
        RestoreError::InvalidRng => "runtime snapshot random stream state is zero"@,
        RestoreError::InvalidTimer { knot, remaining, max } => "runtime snapshot timer at knot "@ + decimal(knot as nat)
            + " has "@ + decimal(remaining as nat) + " ticks left, more than its period "@ + decimal(max as nat),
        RestoreError::InvalidDelayHead { knot, head, len } => "runtime snapshot delay head "@ + decimal(head as nat)
            + " at knot "@ + decimal(knot as nat) + " is outside its ring of length "@ + decimal(len as nat),
        RestoreError::InvalidSignal { field, knot, domain } => "runtime snapshot field '"@ + field@ + "' at knot "@ + decimal(
            knot as nat,
        ) + " holds a value invalid for "@ + domain_text(domain) + " domain"@,
    }
}

/// The diagnostic of a preset failure.
pub open spec fn preset_text(e: PresetError) -> Seq<char> {
    match e {
        PresetError::Bind(b) => "cannot bind preset runtime: "@ + bind_text(*b),
        PresetError::Duplicate { knot } => "preset names knot '"@ + knot@ + "' more than once"@,
        PresetError::Missing { knot } => "preset knot '"@ + knot@ + "' is missing"@,
        PresetError::WrongKind { knot, expected } => "preset knot '"@ + knot@ + "' is not a "@ + expected@ + " knot"@,
        PresetError::InvalidSignal { knot, domain } => "preset value for knot '"@ + knot@ + "' is invalid for "@ + domain_text(
            domain,
        ) + " domain"@,
    }
}

/// The diagnostic of a failed bind-and-restore.
pub open spec fn bind_restore_text(e: BindRestoreError) -> Seq<char> {
    match e {
        BindRestoreError::Bind(b) => "cannot bind restored runtime: "@ + bind_text(*b),
        BindRestoreError::Restore(r) => "cannot restore runtime: "@ + restore_text(r),
    }
}

/// The label of an endpoint kind.
pub open spec fn endpoint_text(e: RecipeEndpoint) -> Seq<char> {
    match e {
        RecipeEndpoint::SignalIn => "SignalIn"@,
        RecipeEndpoint::SignalOut => "SignalOut"@,
        RecipeEndpoint::EmitCommand => "EmitCommand"@,
        RecipeEndpoint::Knot => "knot"@,
        RecipeEndpoint::Port => "port"@,
    }
}

/// The diagnostic of an endpoint resolution failure.
pub open spec fn resolve_text(e: RecipeResolveError) -> Seq<char> {
    match e {
        RecipeResolveError::Missing { endpoint, name } => "required "@ + endpoint_text(endpoint) + " endpoint '"@ + name@
            + "' is missing"@,
        RecipeResolveError::Invalid { endpoint, name, reason } => "required "@ + endpoint_text(endpoint) + " endpoint '"@
            + name@ + "' is invalid: "@ + reason@,
    }
}

/// The diagnostic of a recipe failure.
pub open spec fn recipe_text(e: RecipeError) -> Seq<char> {
    match e {
        RecipeError::Build(b) => "cannot build recipe: "@ + build_text(b@),
        RecipeError::Bind(b) => "cannot bind recipe: "@ + bind_text(*b),
        RecipeError::Resolve(r) => "cannot resolve recipe ports: "@ + resolve_text(r),
    }
}

/// The diagnostic of a scenario failure.
pub open spec fn scenario_text(e: ScenarioError) -> Seq<char> {
    match e {
        ScenarioError::Recipe(r) => "cannot start scenario: "@ + recipe_text(r),
        ScenarioError::Handle(h) => "scenario handle error: "@ + handle_text(h),
        ScenarioError::MissingSignal { path, tick } => "SignalOut path '"@ + path@ + "' has no sample in scenario frame "@
            + decimal(tick as nat),
        ScenarioError::UnexpectedSignal { path, expected, actual, tick } => "SignalOut path '"@ + path@
            + "' in scenario frame "@ + decimal(tick as nat) + " was "@ + decimal_int(actual as int) + ", expected "@
            + decimal_int(expected as int),
        ScenarioError::ExpectedTruthy { path, actual, tick } => "SignalOut path '"@ + path@ + "' in scenario frame "@ + decimal(
            tick as nat,
        ) + " was falsey ("@ + decimal_int(actual as int) + ")"@,
        ScenarioError::UnexpectedEmits { command, expected, actual, tick } => "EmitCommand '"@ + command@
            + "' in scenario frame "@ + decimal(tick as nat) + " fired "@ + decimal(actual as nat) + " times, expected "@
            + decimal(expected as nat),
    }
}

/// The diagnostic of a cookbook failure.
pub open spec fn cookbook_text(e: CookbookError) -> Seq<char> {
    match e {
        CookbookError::Build(b) => "cookbook graph build failed: "@ + build_text(b@),
        CookbookError::Validation(v) => "cookbook validation failed: "@ + validation_text(v@),
        CookbookError::Bind(b) => "cookbook bind failed: "@ + bind_text(b),
        CookbookError::Handle(h) => "cookbook handle failed: "@ + handle_text(h),
        CookbookError::Scenario(s) => "cookbook scenario failed: "@ + scenario_text(s),
    }
}

impl BindError {
    /// The human-readable diagnostic of this failure.
    pub fn message(&self) -> (r: String)
        ensures
            r@ == bind_text(*self),
    {
        let mut s = String::new();
        match self {
            BindError::InvalidWeave { weave_id, source } => {
                push3(&mut s, "cannot bind weave '", weave_id.as_str(), "': ");
                let m = source.message();
                push_str(&mut s, m.as_str());
            },
            BindError::CapacityExceeded { weave_id, resource, count } => {
                push3(&mut s, "cannot bind weave '", weave_id.as_str(), "': ");
                push3(&mut s, resource, " count ", "");
                push_u64(&mut s, *count as u64);
                push_str(&mut s, " exceeds runtime capacity");
            },
            BindError::InvalidReference { weave_id, knot, port } => {
                push3(&mut s, "cannot bind weave '", weave_id.as_str(), "': unresolved port ");
                push_port_ref(&mut s, knot.as_str(), port.as_str());
            },
            BindError::InvalidTopology { weave_id } => {
                push3(&mut s, "cannot bind weave '", weave_id.as_str(), "': invalid topology");
            },
        }
        proof {
            reveal_strlit("");
        }
        assert(s@ =~= bind_text(*self));
        s
    }
}

impl HandleError {
    /// The human-readable diagnostic of this failure.
    pub fn message(&self) -> (r: String)
        ensures
            r@ == handle_text(*self),
    {
        let mut s = String::new();
        match self {
            HandleError::ForeignRuntime { handle } => {
                push_str(&mut s, handle);
                push_str(&mut s, " handle belongs to a different runtime");
            },
            HandleError::InvalidSense { sense } => {
                push_str(&mut s, "sense handle ");
                push_u64(&mut s, sense.get() as u64);
                push_str(&mut s, " is invalid for this runtime");
            },
            HandleError::InvalidHostPath { path } => {
                push_str(&mut s, "host path handle ");
                push_u64(&mut s, path.get() as u64);
                push_str(&mut s, " is invalid");
            },
            HandleError::InvalidCommand { cmd } => {
                push_str(&mut s, "command handle ");
                push_u64(&mut s, cmd.get() as u64);
                push_str(&mut s, " is invalid");
            },
            HandleError::InvalidKnot { knot } => {
                push_str(&mut s, "knot handle ");
                push_u64(&mut s, knot.get() as u64);
                push_str(&mut s, " is invalid for this runtime");
            },
            HandleError::InvalidPort { knot, port } => {
                push_str(&mut s, "port handle ");
                push_u64(&mut s, port.get() as u64);
                push_str(&mut s, " is invalid for knot ");
                push_u64(&mut s, knot.get() as u64);
                push_str(&mut s, " in this runtime");
            },
            HandleError::DomainValue { sense, domain } => {
                push_str(&mut s, "sense value for handle ");
                push_u64(&mut s, sense.get() as u64);
                push3(&mut s, " is invalid for ", domain_str(*domain), " domain");
            },
        }
        assert(s@ =~= handle_text(*self));
        s
    }
}

impl RestoreError {
    /// The human-readable diagnostic of this failure.
    pub fn message(&self) -> (r: String)
        ensures
            r@ == restore_text(*self),
    {
        let mut s = String::new();
        match self {
            RestoreError::UnsupportedVersion { found, supported } => {
                push_str(&mut s, "runtime snapshot format version ");
                push_u64(&mut s, *found as u64);
                push_str(&mut s, " is unsupported (expected ");
                push_u64(&mut s, *supported as u64);
                push_str(&mut s, ")");
            },
            RestoreError::NumericPathMismatch { expected, found } => {
                push3(&mut s, "runtime snapshot numeric path ", numeric_str(*found), " does not match ");
                push_str(&mut s, numeric_str(*expected));
            },
            RestoreError::InvalidPhase { found } => {
                push_str(&mut s, "runtime snapshot phase ");
                push_u64(&mut s, *found as u64);
                push_str(&mut s, " is not a settled frame");
            },
            RestoreError::FingerprintMismatch { expected, found } => {
                push_str(&mut s, "runtime snapshot fingerprint ");
                push_hex(&mut s, *found, 16);
                push_str(&mut s, " does not match ");
                push_hex(&mut s, *expected, 16);
            },
            RestoreError::ShapeMismatch { field, expected, found } => {
                push3(&mut s, "runtime snapshot field '", field, "' has length ");
                push_u64(&mut s, *found as u64);
                push_str(&mut s, ", expected ");
                push_u64(&mut s, *expected as u64);
            },
            RestoreError::InvalidRng => {
                push_str(&mut s, "runtime snapshot random stream state is zero");
            },
            RestoreError::InvalidTimer { knot, remaining, max } => {
                push_str(&mut s, "runtime snapshot timer at knot ");
                push_u64(&mut s, *knot as u64);
                push_str(&mut s, " has ");
                push_u64(&mut s, *remaining as u64);
                push_str(&mut s, " ticks left, more than its period ");
                push_u64(&mut s, *max as u64);
            },
            RestoreError::InvalidDelayHead { knot, head, len } => {
                push_str(&mut s, "runtime snapshot delay head ");
                push_u64(&mut s, *head as u64);
                push_str(&mut s, " at knot ");
                push_u64(&mut s, *knot as u64);
                push_str(&mut s, " is outside its ring of length ");
                push_u64(&mut s, *len as u64);
            },
            RestoreError::InvalidSignal { field, knot, domain } => {
                push3(&mut s, "runtime snapshot field '", field, "' at knot ");
                push_u64(&mut s, *knot as u64);
                push3(&mut s, " holds a value invalid for ", domain_str(*domain), " domain");
            },
        }
        assert(s@ =~= restore_text(*self));
        s
    }
}

impl PresetError {
    /// The human-readable diagnostic of this failure.
    pub fn message(&self) -> (r: String)
        ensures
            r@ == preset_text(*self),
    {
        let mut s = String::new();
        match self {
            PresetError::Bind(b) => {
                push_str(&mut s, "cannot bind preset runtime: ");
                let m = b.message();
                push_str(&mut s, m.as_str());
            },
            PresetError::Duplicate { knot } => {
                push3(&mut s, "preset names knot '", knot.as_str(), "' more than once");
            },
            PresetError::Missing { knot } => {
                push3(&mut s, "preset knot '", knot.as_str(), "' is missing");
            },
            PresetError::WrongKind { knot, expected } => {
                push3(&mut s, "preset knot '", knot.as_str(), "' is not a ");
                push_str(&mut s, expected);
                push_str(&mut s, " knot");
            },
            PresetError::InvalidSignal { knot, domain } => {
                push3(&mut s, "preset value for knot '", knot.as_str(), "' is invalid for ");
                push_str(&mut s, domain_str(*domain));
                push_str(&mut s, " domain");
            },
        }
        assert(s@ =~= preset_text(*self));
        s
    }
}

impl BindRestoreError {
    /// The human-readable diagnostic of this failure.
    pub fn message(&self) -> (r: String)
        ensures
            r@ == bind_restore_text(*self),
    {
        let mut s = String::new();
        match self {
            BindRestoreError::Bind(b) => {
                push_str(&mut s, "cannot bind restored runtime: ");
                let m = b.message();
                push_str(&mut s, m.as_str());
            },
            BindRestoreError::Restore(r) => {
                push_str(&mut s, "cannot restore runtime: ");
                let m = r.message();
                push_str(&mut s, m.as_str());
            },
        }
        assert(s@ =~= bind_restore_text(*self));
        s
    }
}

impl RecipeEndpoint {
    /// The endpoint kind's label.
    pub fn label(&self) -> (r: &'static str)
        ensures
            r@ == endpoint_text(*self),
    {
        match self {
            RecipeEndpoint::SignalIn => "SignalIn",
            RecipeEndpoint::SignalOut => "SignalOut",
            RecipeEndpoint::EmitCommand => "EmitCommand",
            RecipeEndpoint::Knot => "knot",
            RecipeEndpoint::Port => "port",
        }
    }
}

impl RecipeResolveError {
    /// The human-readable diagnostic of this failure.
    pub fn message(&self) -> (r: String)
        ensures
            r@ == resolve_text(*self),
    {
        let mut s = String::new();
        match self {
            RecipeResolveError::Missing { endpoint, name } => {
                push3(&mut s, "required ", endpoint.label(), " endpoint '");
                push3(&mut s, name.as_str(), "' is missing", "");
            },
            RecipeResolveError::Invalid { endpoint, name, reason } => {
                push3(&mut s, "required ", endpoint.label(), " endpoint '");
                push3(&mut s, name.as_str(), "' is invalid: ", reason);
            },
        }
        proof {
            reveal_strlit("");
        }
        assert(s@ =~= resolve_text(*self));
        s
    }
}

impl RecipeError {
    /// The human-readable diagnostic of this failure.
    pub fn message(&self) -> (r: String)
        ensures
            r@ == recipe_text(*self),
    {
        let mut s = String::new();
        match self {
            RecipeError::Build(b) => {
                push_str(&mut s, "cannot build recipe: ");
                let m = b.message();
                push_str(&mut s, m.as_str());
            },
            RecipeError::Bind(b) => {
                push_str(&mut s, "cannot bind recipe: ");
                let m = b.message();
                push_str(&mut s, m.as_str());
            },
            RecipeError::Resolve(r) => {
                push_str(&mut s, "cannot resolve recipe ports: ");
                let m = r.message();
                push_str(&mut s, m.as_str());
            },
        }
        assert(s@ =~= recipe_text(*self));
        s
    }
}

impl ScenarioError {
    /// The human-readable diagnostic of this failure.
    pub fn message(&self) -> (r: String)
        ensures
            r@ == scenario_text(*self),
    {
        let mut s = String::new();
        match self {
            ScenarioError::Recipe(r) => {
                push_str(&mut s, "cannot start scenario: ");
                let m = r.message();
                push_str(&mut s, m.as_str());
            },
            ScenarioError::Handle(h) => {
                push_str(&mut s, "scenario handle error: ");
                let m = h.message();
                push_str(&mut s, m.as_str());
            },
            ScenarioError::MissingSignal { path, tick } => {
                push3(&mut s, "SignalOut path '", path.as_str(), "' has no sample in scenario frame ");
                push_u64(&mut s, *tick);
            },
            ScenarioError::UnexpectedSignal { path, expected, actual, tick } => {
                push3(&mut s, "SignalOut path '", path.as_str(), "' in scenario frame ");
                push_u64(&mut s, *tick);
                push_str(&mut s, " was ");
                push_i64(&mut s, *actual as i64);
                push_str(&mut s, ", expected ");
                push_i64(&mut s, *expected as i64);
            },
            ScenarioError::ExpectedTruthy { path, actual, tick } => {
                push3(&mut s, "SignalOut path '", path.as_str(), "' in scenario frame ");
                push_u64(&mut s, *tick);
                push_str(&mut s, " was falsey (");
                push_i64(&mut s, *actual as i64);
                push_str(&mut s, ")");
            },
            ScenarioError::UnexpectedEmits { command, expected, actual, tick } => {
                push3(&mut s, "EmitCommand '", command.as_str(), "' in scenario frame ");
                push_u64(&mut s, *tick);
                push_str(&mut s, " fired ");
                push_u64(&mut s, *actual as u64);
                push_str(&mut s, " times, expected ");
                push_u64(&mut s, *expected as u64);
            },
        }
        assert(s@ =~= scenario_text(*self));
        s
    }
}

impl CookbookError {
    /// The human-readable diagnostic of this failure.
    pub fn message(&self) -> (r: String)
        ensures
            r@ == cookbook_text(*self),
    {
        let mut s = String::new();
        match self {
            CookbookError::Build(b) => {
                push_str(&mut s, "cookbook graph build failed: ");
                let m = b.message();
                push_str(&mut s, m.as_str());
            },
            CookbookError::Validation(v) => {
                push_str(&mut s, "cookbook validation failed: ");
                let m = v.message();
                push_str(&mut s, m.as_str());
            },
            CookbookError::Bind(b) => {
                push_str(&mut s, "cookbook bind failed: ");
                let m = b.message();
                push_str(&mut s, m.as_str());
            },
            CookbookError::Handle(h) => {
                push_str(&mut s, "cookbook handle failed: ");
                let m = h.message();
                push_str(&mut s, m.as_str());
            },
            CookbookError::Scenario(c) => {
                push_str(&mut s, "cookbook scenario failed: ");
                let m = c.message();
                push_str(&mut s, m.as_str());
            },
        }
        assert(s@ =~= cookbook_text(*self));
        s
    }
}

impl BindError {
    /// Whether this failure wraps an underlying error (a validation
    /// failure).
    pub fn has_source(&self) -> (r: bool)
        ensures
            r == (*self is InvalidWeave),
    {
        match self {
            BindError::InvalidWeave { .. } => true,
            _ => false,
        }
    }
}

impl HandleError {
    /// Handle failures wrap no underlying error.
    pub fn has_source(&self) -> (r: bool)
        ensures
            !r,
    {
        false
    }
}

impl RecipeResolveError {
    /// Resolution failures wrap no underlying error.
    pub fn has_source(&self) -> (r: bool)
        ensures
            !r,
    {
        false
    }
}

impl RecipeError {
    /// Every recipe failure wraps the build, bind or resolution error.
    pub fn has_source(&self) -> (r: bool)
        ensures
            r,
    {
        true
    }
}

impl ScenarioError {
    /// Whether this failure wraps a recipe or handle error.
    pub fn has_source(&self) -> (r: bool)
        ensures
            r == (*self is Recipe || *self is Handle),
    {
        match self {
            ScenarioError::Recipe(_) | ScenarioError::Handle(_) => true,
            _ => false,
        }
    }
}

impl CookbookError {
    /// Every cookbook failure wraps the error of the step that failed.
    pub fn has_source(&self) -> (r: bool)
        ensures
            r,
    {
        true
    }
}

} // verus!
