//! Validation of determinism across runs.
use vstd::prelude::*;
use crate::certify::certificate::{CertificateBody, CertificateError, DeterminismClaim, ValidatorInfo};
use crate::certify::record::{RunRecord, spec_runs_identical, runs_identical};
use crate::core_types::strmap::StrMap;
use crate::core_types::text::{spec_decimal, spec_join, usize_to_decimal, u64_to_decimal, join_strings};
use crate::core_types::hash::{spec_blake3, spec_hex_encode};
use crate::core_types::error::cat2;

verus! {

/// One validation check.
#[derive(Debug, Clone, PartialEq, Eq)]
pub struct ValidationCheck {
    pub name: String,
    pub passed: bool,
    pub message: String,
}

impl ValidationCheck {
    /// A check from its parts.
    pub fn new(name: String, passed: bool, message: String) -> (c: Self)
        ensures
            c.name@ == name@,
            c.passed == passed,
            c.message@ == message@,
    {
        ValidationCheck { name, passed, message }
    }

    /// A passed check with the message `Check passed`.
    pub fn passed(name: String) -> (c: Self)
        ensures
            c.name@ == name@,
            c.passed,
            c.message@ == "Check passed"@,
    {
        ValidationCheck { name, passed: true, message: "Check passed".to_owned() }
    }

    /// A failed check with `reason` as its message.
    pub fn failed(name: String, reason: String) -> (c: Self)
        ensures
            c.name@ == name@,
            !c.passed,
            c.message@ == reason@,
    {
        ValidationCheck { name, passed: false, message: reason }
    }
}

/// The number of passed checks.
pub open spec fn spec_count_passed(checks: Seq<ValidationCheck>) -> nat
    decreases checks.len(),
{
    if checks.len() == 0 {
        0
    } else {
        spec_count_passed(checks.drop_last()) + (if checks.last().passed { 1nat } else { 0nat })
    }
}

/// The summary line of a report.
pub open spec fn spec_summary(passed: bool, passed_count: nat, total: nat, runs: nat) -> Seq<char> {
    "Validation "@ + (if passed { "PASSED"@ } else { "FAILED"@ }) + ": "@ + spec_decimal(
        passed_count,
    ) + "/"@ + spec_decimal(total) + " checks passed, "@ + spec_decimal(runs)
        + " runs compared"@
}

/// The result of validating determinism.
#[derive(Debug)]
pub struct ValidationReport {
    pub passed: bool,
    pub run_count: usize,
    pub checks: Vec<ValidationCheck>,
    pub details: StrMap,
}

impl ValidationReport {
    /// A report with no checks and no details.
    pub fn new(passed: bool, run_count: usize) -> (r: Self)
        ensures
            r.passed == passed,
            r.run_count == run_count,
            r.checks@.len() == 0,
            r.details@ == Map::<Seq<char>, Seq<char>>::empty(),
    {
        ValidationReport { passed, run_count, checks: Vec::new(), details: StrMap::new() }
    }

    /// The report with one more check.
    pub fn with_check(self, check: ValidationCheck) -> (r: Self)
        ensures
            r.checks@ == self.checks@.push(check),
            r.passed == self.passed,
            r.run_count == self.run_count,
            r.details@ == self.details@,
    {
        let mut r = self;
        r.checks.push(check);
        r
    }

    /// The report with detail `key` set to `value`.
    pub fn with_detail(self, key: String, value: String) -> (r: Self)
        ensures
            r.details@ == self.details@.insert(key@, value@),
            r.checks == self.checks,
            r.passed == self.passed,
            r.run_count == self.run_count,
    {
        let mut r = self;
        r.details.insert(key, value);
        r
    }

    /// The failed checks, in order.
    pub fn failed_checks(&self) -> (v: Vec<&ValidationCheck>)
        ensures
            v@.map_values(|c: &ValidationCheck| *c) == self.checks@.filter(|c: ValidationCheck| !c.passed),
    {
        let ghost pred = |c: ValidationCheck| !c.passed;
        let mut v: Vec<&ValidationCheck> = Vec::new();
        let mut i: usize = 0;
        while i < self.checks.len()
            invariant
                i <= self.checks@.len(),
                pred == (|c: ValidationCheck| !c.passed),
                v@.map_values(|c: &ValidationCheck| *c) == self.checks@.take(i as int).filter(pred),
            decreases self.checks@.len() - i,
        {
            reveal_with_fuel(Seq::<_>::filter, 1);
            assert(self.checks@.take(i + 1).drop_last() =~= self.checks@.take(i as int));
            if !self.checks[i].passed {
                v.push(&self.checks[i]);
            }
            i = i + 1;
            assert(v@.map_values(|c: &ValidationCheck| *c) =~= self.checks@.take(i as int).filter(pred));
        }
        assert(self.checks@.take(self.checks@.len() as int) =~= self.checks@);
        v
    }

    /// `Validation PASSED|FAILED: <passed>/<total> checks passed, <runs> runs compared`.
    pub fn summary(&self) -> (s: String)
        ensures
            s@ == spec_summary(
                self.passed,
                spec_count_passed(self.checks@),
                self.checks@.len(),
                self.run_count as nat,
            ),
    {
        let mut passed_count: usize = 0;
        let mut i: usize = 0;
        while i < self.checks.len()
            invariant
                i <= self.checks@.len(),
                passed_count == spec_count_passed(self.checks@.take(i as int)),
                passed_count <= i,
            decreases self.checks@.len() - i,
        {
            assert(self.checks@.take(i + 1).drop_last() =~= self.checks@.take(i as int));
            if self.checks[i].passed {
                passed_count = passed_count + 1;
            }
            i = i + 1;
        }
        assert(self.checks@.take(self.checks@.len() as int) =~= self.checks@);
        let mut s = String::new();
        s.append("Validation ");
        s.append(if self.passed { "PASSED" } else { "FAILED" });
        s.append(": ");
        let p = usize_to_decimal(passed_count);
        s.append(p.as_str());
        s.append("/");
        let t = usize_to_decimal(self.checks.len());
        s.append(t.as_str());
        s.append(" checks passed, ");
        let r = usize_to_decimal(self.run_count);
        s.append(r.as_str());
        s.append(" runs compared");
        s
    }
}

/// Whether every run has the first run's seed.
pub open spec fn spec_seeds_match(runs: Seq<RunRecord>) -> bool {
    forall|i: int| 0 <= i < runs.len() ==> #[trigger] runs[i].seed == runs[0].seed
}

/// Whether every run has the first run's tick budget.
pub open spec fn spec_ticks_match(runs: Seq<RunRecord>) -> bool {
    forall|i: int| 0 <= i < runs.len() ==> #[trigger] runs[i].max_ticks == runs[0].max_ticks
}

/// Whether every run recorded as many events as the first.
pub open spec fn spec_counts_match(runs: Seq<RunRecord>) -> bool {
    forall|i: int| 0 <= i < runs.len() ==> #[trigger] runs[i].events@.len() == runs[0].events@.len()
}

/// The text recorded for a mismatching pair whose first run is `i`.
pub open spec fn spec_mismatch_text(i: int) -> Seq<char> {
    "Runs "@ + spec_decimal(i as nat) + " and "@ + spec_decimal((i + 1) as nat) + " differ"@
}

/// Mismatch texts for the pairs `(i, k)` with `i < k < j`, in order of `k`.
pub open spec fn spec_row_mismatches(runs: Seq<RunRecord>, i: int, j: int) -> Seq<Seq<char>>
    decreases j - i,
{
    if j <= i + 1 {
        Seq::empty()
    } else {
        spec_row_mismatches(runs, i, j - 1) + (if !spec_runs_identical(runs[i], runs[j - 1]) {
            seq![spec_mismatch_text(i)]
        } else {
            Seq::empty()
        })
    }
}

/// Mismatch texts for all pairs whose first run is below `i`, pair by pair.
pub open spec fn spec_mismatches_below(runs: Seq<RunRecord>, i: int) -> Seq<Seq<char>>
    decreases i,
{
    if i <= 0 {
        Seq::empty()
    } else {
        spec_mismatches_below(runs, i - 1) + spec_row_mismatches(runs, i - 1, runs.len() as int)
    }
}

/// Mismatch texts for all pairs of runs.
pub open spec fn spec_mismatches(runs: Seq<RunRecord>) -> Seq<Seq<char>> {
    spec_mismatches_below(runs, runs.len() as int)
}

/// The text listing event counts: `[c0, c1, ...]`.
pub open spec fn spec_counts_text(runs: Seq<RunRecord>) -> Seq<char> {
    "["@ + spec_join(Seq::new(runs.len(), |i: int| spec_decimal(runs[i].events@.len())), ", "@)
        + "]"@
}

/// Whether a check has the given name, flag and message.
pub open spec fn check_is(c: ValidationCheck, name: Seq<char>, passed: bool, message: Seq<char>) -> bool {
    c.name@ == name && c.passed == passed && c.message@ == message
}

/// The report `validate_runs` gives for a non-empty list of runs: four
/// checks (seeds, tick budgets, event counts, event sequences), passed when
/// all four pass.
pub open spec fn spec_runs_report(runs: Seq<RunRecord>, r: ValidationReport) -> bool {
    let seeds = spec_seeds_match(runs);
    let ticks = spec_ticks_match(runs);
    let counts = spec_counts_match(runs);
    let mism = spec_mismatches(runs);
    &&& r.run_count == runs.len()
    &&& r.details@ == Map::<Seq<char>, Seq<char>>::empty()
    &&& r.checks@.len() == 4
    &&& check_is(r.checks@[0], "seed_consistency"@, seeds,
        if seeds { "All runs use seed: "@ + spec_decimal(runs[0].seed as nat) } else { "Seeds differ between runs"@ })
    &&& check_is(r.checks@[1], "tick_consistency"@, ticks,
        if ticks { "All runs: "@ + spec_decimal(runs[0].max_ticks as nat) + " ticks"@ } else { "Tick counts differ"@ })
    &&& check_is(r.checks@[2], "event_count_consistency"@, counts,
        if counts { "All runs: "@ + spec_decimal(runs[0].events@.len()) + " events"@ } else { "Event counts differ: "@ + spec_counts_text(runs) })
    &&& check_is(r.checks@[3], "event_sequence_consistency"@, mism.len() == 0,
        if mism.len() == 0 { "All event sequences match"@ } else { "Sequence mismatches: "@ + spec_join(mism, ", "@) })
    &&& r.passed == (seeds && ticks && counts && mism.len() == 0)
}

/// Checks that runs of one execution are deterministic and issues
/// certificate bodies.
pub struct DeterminismValidator {
    pub name: String,
    pub version: String,
    pub public_key: String,
}

/// `blake3:` and the hexadecimal BLAKE3 digest of the encoded event log.
pub open spec fn spec_log_hash(encoded: Seq<u8>) -> Seq<char> {
    "blake3:"@ + spec_hex_encode(spec_blake3(encoded))
}

impl DeterminismValidator {
    /// A validator from its name, version and public key.
    pub fn new(name: String, version: String, public_key: String) -> (v: Self)
        ensures
            v.name@ == name@,
            v.version@ == version@,
            v.public_key@ == public_key@,
    {
        DeterminismValidator { name, version, public_key }
    }

    /// The validator `cathedral-validator` version `0.1.0` with key `default-public-key`.
    pub fn default() -> (v: Self)
        ensures
            v.name@ == "cathedral-validator"@,
            v.version@ == "0.1.0"@,
            v.public_key@ == "default-public-key"@,
    {
        DeterminismValidator::new(
            "cathedral-validator".to_owned(),
            "0.1.0".to_owned(),
            "default-public-key".to_owned(),
        )
    }

    /// Compares the runs: with none, a failed report with one `has_runs`
    /// check; otherwise the four consistency checks.
    pub fn validate_runs(&self, runs: &[RunRecord]) -> (r: Result<ValidationReport, CertificateError>)
        ensures
            runs@.len() == 0 ==> (r matches Ok(rep) && !rep.passed && rep.run_count == 0
                && rep.checks@.len() == 1 && check_is(rep.checks@[0], "has_runs"@, false, "No runs provided"@)
                && rep.details@ == Map::<Seq<char>, Seq<char>>::empty()),
            runs@.len() > 0 ==> (r matches Ok(rep) && spec_runs_report(runs@, rep)),
    {
        if runs.len() == 0 {
            let rep = ValidationReport::new(false, 0).with_check(
                ValidationCheck::failed("has_runs".to_owned(), "No runs provided".to_owned()),
            );
            return Ok(rep);
        }
        let n = runs.len();
        let mut report = ValidationReport::new(true, n);

        // Seeds
        let first_seed = runs[0].seed;
        let mut seed_match = true;
        let mut i: usize = 0;
        while i < n
            invariant
                n == runs@.len(),
                n > 0,
                first_seed == runs@[0].seed,
                i <= n,
                seed_match == (forall|k: int| 0 <= k < i ==> #[trigger] runs@[k].seed == first_seed),
            decreases n - i,
        {
            if runs[i].seed != first_seed {
                seed_match = false;
            }
            i = i + 1;
        }
        let seed_msg = if seed_match {
            let d = u64_to_decimal(first_seed);
            cat2("All runs use seed: ", d.as_str())
        } else {
            "Seeds differ between runs".to_owned()
        };
        report = report.with_check(ValidationCheck::new("seed_consistency".to_owned(), seed_match, seed_msg));

        // Tick budgets
        let first_ticks = runs[0].max_ticks;
        let mut ticks_match = true;
        let mut i: usize = 0;
        while i < n
            invariant
                n == runs@.len(),
                first_ticks == runs@[0].max_ticks,
                i <= n,
                ticks_match == (forall|k: int| 0 <= k < i ==> #[trigger] runs@[k].max_ticks == first_ticks),
            decreases n - i,
        {
            if runs[i].max_ticks != first_ticks {
                ticks_match = false;
            }
            i = i + 1;
        }
        let ticks_msg = if ticks_match {
            let d = u64_to_decimal(first_ticks);
            let mut s = cat2("All runs: ", d.as_str());
            s.append(" ticks");
            s
        } else {
            "Tick counts differ".to_owned()
        };
        report = report.with_check(ValidationCheck::new("tick_consistency".to_owned(), ticks_match, ticks_msg));

        // Event counts
        let first_count = runs[0].events.len();
        let mut counts_match = true;
        let mut count_texts: Vec<String> = Vec::new();
        let ghost counts_seq = Seq::new(runs@.len(), |k: int| spec_decimal(runs@[k].events@.len()));
        let mut i: usize = 0;
        while i < n
            invariant
                n == runs@.len(),
                first_count == runs@[0].events@.len(),
                i <= n,
                counts_seq == Seq::new(runs@.len(), |k: int| spec_decimal(runs@[k].events@.len())),
                count_texts@.len() == i,
                count_texts.deep_view() == counts_seq.take(i as int),
                counts_match == (forall|k: int| 0 <= k < i ==> #[trigger] runs@[k].events@.len() == first_count),
            decreases n - i,
        {
            let c = runs[i].events.len();
            if c != first_count {
                counts_match = false;
            }
            let ct = usize_to_decimal(c);
            let ghost prev = count_texts@;
            count_texts.push(ct);
            i = i + 1;
            assert(count_texts.deep_view() =~= counts_seq.take(i as int)) by {
                assert(count_texts@ == prev.push(ct));
                assert forall|k: int| 0 <= k < i implies count_texts.deep_view()[k] == counts_seq.take(i as int)[k] by {
                    if k < i - 1 {
                        assert(count_texts@[k] == prev[k]);
                    }
                }
            }
        }
        assert(counts_seq.take(n as int) =~= counts_seq);
        let counts_msg = if counts_match {
            let d = usize_to_decimal(first_count);
            let mut s = cat2("All runs: ", d.as_str());
            s.append(" events");
            s
        } else {
            let joined = join_strings(&count_texts, ", ");
            let mut s = cat2("Event counts differ: ", "[");
            s.append(joined.as_str());
            s.append("]");
            proof {
                reveal_strlit("[");
                reveal_strlit("Event counts differ: ");
                assert(counts_seq =~= Seq::new(runs@.len(), |k: int| spec_decimal(runs@[k].events@.len())));
                assert(s@ =~= "Event counts differ: "@ + spec_counts_text(runs@));
            }
            s
        };
        report = report.with_check(
            ValidationCheck::new("event_count_consistency".to_owned(), counts_match, counts_msg),
        );

        // Event sequences, pair by pair
        let mut mismatches: Vec<String> = Vec::new();
        let mut i: usize = 0;
        while i < n
            invariant
                n == runs@.len(),
                i <= n,
                mismatches.deep_view() == spec_mismatches_below(runs@, i as int),
            decreases n - i,
        {
            let mut j: usize = i + 1;
            while j < n
                invariant
                    n == runs@.len(),
                    i < n,
                    i + 1 <= j <= n,
                    mismatches.deep_view() == spec_mismatches_below(runs@, i as int)
                        + spec_row_mismatches(runs@, i as int, j as int),
                decreases n - j,
            {
                let ghost prev = mismatches@;
                let ghost prev_dv = mismatches.deep_view();
                if !runs_identical(&runs[i], &runs[j]) {
                    let a = usize_to_decimal(i);
                    let b = usize_to_decimal(i + 1);
                    let mut t = cat2("Runs ", a.as_str());
                    t.append(" and ");
                    t.append(b.as_str());
                    t.append(" differ");
                    proof {
                        reveal_strlit("Runs ");
                        reveal_strlit(" and ");
                        reveal_strlit(" differ");
                    }
                    assert(t@ == spec_mismatch_text(i as int));
                    mismatches.push(t);
                    assert(mismatches.deep_view() =~= prev_dv.push(t@)) by {
                        assert(mismatches@ == prev.push(t));
                        assert forall|k: int| 0 <= k < mismatches@.len() implies mismatches.deep_view()[k] == prev_dv.push(t@)[k] by {
                            if k < prev.len() {
                                assert(mismatches@[k] == prev[k]);
                            }
                        }
                    }
                }
                j = j + 1;
                assert(mismatches.deep_view() =~= spec_mismatches_below(runs@, i as int)
                    + spec_row_mismatches(runs@, i as int, j as int));
            }
            i = i + 1;
            assert(mismatches.deep_view() =~= spec_mismatches_below(runs@, i as int));
        }
        let all_match = mismatches.len() == 0;
        let seq_msg = if all_match {
            "All event sequences match".to_owned()
        } else {
            let joined = join_strings(&mismatches, ", ");
            cat2("Sequence mismatches: ", joined.as_str())
        };
        report = report.with_check(
            ValidationCheck::new("event_sequence_consistency".to_owned(), all_match, seq_msg),
        );
        report.passed = seed_match && ticks_match && counts_match && all_match;
        proof {
            reveal_strlit("[");
            reveal_strlit("Event counts differ: ");
            assert("Event counts differ: "@ + "["@ =~= "Event counts differ: ["@) by {
                reveal_strlit("Event counts differ: [");
            }
        }
        Ok(report)
    }

    /// `blake3:` and the hexadecimal BLAKE3 digest of the encoded event log.
    pub fn compute_log_hash(&self, encoded_events: &[u8]) -> (r: Result<String, CertificateError>)
        ensures
            r matches Ok(s) && s@ == spec_log_hash(encoded_events@),
    {
        let h = crate::core_types::hash::Hash::compute(encoded_events);
        let hex = h.to_hex();
        Ok(cat2("blake3:", hex.as_str()))
    }

    /// A certificate body for `record`, claiming identical runs when the
    /// sequence check passed, seeded randomness when the seed check passed,
    /// and a valid hash chain when every check passed; the report's summary
    /// is kept as the `validation_report` detail.
    pub fn certify(
        &self,
        execution_id: String,
        seed: u64,
        record: &RunRecord,
        encoded_events: &[u8],
        report: &ValidationReport,
    ) -> (r: Result<CertificateBody, CertificateError>)
        ensures
            r matches Ok(b) && {
                &&& b.execution_id@ == execution_id@
                &&& b.seed == seed
                &&& b.ticks == record.max_ticks
                &&& b.event_count == record.events@.len()
                &&& b.log_hash@ == spec_log_hash(encoded_events@)
                &&& b.validator.name@ == self.name@
                &&& b.validator.version@ == self.version@
                &&& b.validator.public_key@ == self.public_key@
                &&& b.claims@ == spec_claims(report)
                &&& b.metadata@ == Map::<Seq<char>, Seq<char>>::empty().insert(
                    "validation_report"@,
                    spec_summary(report.passed, spec_count_passed(report.checks@), report.checks@.len(), report.run_count as nat),
                )
            },
    {
        let info = ValidatorInfo::new(self.name.clone(), self.version.clone(), self.public_key.clone());
        let log_hash = match self.compute_log_hash(encoded_events) {
            Ok(h) => h,
            Err(e) => return Err(e),
        };
        let mut body = CertificateBody::new(
            execution_id,
            seed,
            record.max_ticks,
            record.events.len(),
            log_hash,
            info,
        );
        if any_passed_named(&report.checks, "event_sequence_consistency") {
            body = body.with_claim(DeterminismClaim::IdenticalRuns { run_count: report.run_count });
        }
        if any_passed_named(&report.checks, "seed_consistency") {
            body = body.with_claim(DeterminismClaim::SeededRandomness);
        }
        if all_checks_passed(&report.checks) {
            body = body.with_claim(DeterminismClaim::ValidHashChain);
        }
        let summary = report.summary();
        body = body.with_detail("validation_report".to_owned(), summary);
        Ok(body)
    }
}

/// Whether a passed check has the given name.
pub open spec fn spec_any_passed_named(checks: Seq<ValidationCheck>, name: Seq<char>) -> bool {
    exists|i: int| 0 <= i < checks.len() && #[trigger] checks[i].name@ == name && checks[i].passed
}

/// Whether every check passed.
pub open spec fn spec_all_passed(checks: Seq<ValidationCheck>) -> bool {
    forall|i: int| 0 <= i < checks.len() ==> #[trigger] checks[i].passed
}

/// The claims a certificate body gets from a report.
pub open spec fn spec_claims(report: &ValidationReport) -> Seq<DeterminismClaim> {
    (if spec_any_passed_named(report.checks@, "event_sequence_consistency"@) {
        seq![DeterminismClaim::IdenticalRuns { run_count: report.run_count }]
    } else {
        Seq::empty()
    }) + (if spec_any_passed_named(report.checks@, "seed_consistency"@) {
        seq![DeterminismClaim::SeededRandomness]
    } else {
        Seq::empty()
    }) + (if spec_all_passed(report.checks@) {
        seq![DeterminismClaim::ValidHashChain]
    } else {
        Seq::empty()
    })
}

fn any_passed_named(checks: &Vec<ValidationCheck>, name: &str) -> (b: bool)
    ensures
        b == spec_any_passed_named(checks@, name@),
{
    let mut i: usize = 0;
    while i < checks.len()
        invariant
            i <= checks@.len(),
            forall|k: int| 0 <= k < i ==> !(#[trigger] checks@[k].name@ == name@ && checks@[k].passed),
        decreases checks@.len() - i,
    {
        if checks[i].passed && crate::core_types::text::str_eq(checks[i].name.as_str(), name) {
            return true;
        }
        i = i + 1;
    }
    false
}

fn all_checks_passed(checks: &Vec<ValidationCheck>) -> (b: bool)
    ensures
        b == spec_all_passed(checks@),
{
    let mut i: usize = 0;
    while i < checks.len()
        invariant
            i <= checks@.len(),
            forall|k: int| 0 <= k < i ==> #[trigger] checks@[k].passed,
        decreases checks@.len() - i,
    {
        if !checks[i].passed {
            return false;
        }
        i = i + 1;
    }
    true
}

impl Default for DeterminismValidator {
    fn default() -> (v: Self)
        ensures
            v.name@ == "cathedral-validator"@,
    {
        DeterminismValidator::default()
    }
}

} // verus!
