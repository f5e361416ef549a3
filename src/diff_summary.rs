//! Aggregation of a stream of comparisons: the worst difference, failure and
//! sign-change counts, and a histogram of every difference.
use vstd::prelude::*;
use crate::binary64::{le_bits, eq_bits, Binary64};
use crate::diff::{is_diff_worse, worse};
use crate::diff_part_summary::DiffPartSummary;
use crate::log_histogram::LogHistogram;
use crate::text::{decimal, joined, push_decimal, push_str, string_from_chars};
use crate::util::{help_sign, shown_percent, sign_prefix, to_percent};

verus! {

/// How the values that a report shows are written, in scientific notation
/// as `{:e}` writes them. The report puts the sign prefix of
/// [`help_sign`] before each sample value.
pub struct ValueTexts {
    /// The first value of the worst sample.
    pub worst_x: String,
    /// The second value of the worst sample.
    pub worst_y: String,
    /// The worst difference.
    pub worst: String,
    /// The tolerance.
    pub tolerance: String,
    /// The first value of the first sign change.
    pub sign_x: String,
    /// The second value of the first sign change.
    pub sign_y: String,
}

/// A sample written as `<x> vs <y>`, each value after its sign prefix.
pub open spec fn pair_text(x: Binary64, y: Binary64, x_text: Seq<char>, y_text: Seq<char>) -> Seq<char> {
    sign_prefix(x) + x_text + " vs "@ + sign_prefix(y) + y_text
}

/// The running summary of one kind of measurement compared against its
/// expected values, under one tolerance and one sign policy.
pub struct DiffSummary {
    name: String,
    /// The worst difference so far.
    diff: Binary64,
    /// The largest difference that passes.
    allow_diff: Binary64,
    /// Whether sign changes pass.
    allow_sign: bool,
    num_total: usize,
    /// How many differences exceeded the tolerance.
    num_diff_fail: usize,
    /// Nonzero differences, with the worst one as the sample.
    summary_diff: DiffPartSummary,
    /// Sign changes, with the first one as the sample.
    summary_sign: DiffPartSummary,
    histo: LogHistogram,
}

impl Clone for DiffSummary {
    fn clone(&self) -> (r: DiffSummary)
        ensures
            r.name_spec() == self.name_spec(),
            r.worst() == self.worst(),
            r.tolerance() == self.tolerance(),
            r.sign_allowed() == self.sign_allowed(),
            r.total() == self.total(),
            r.fails() == self.fails(),
            r.diff_part() == self.diff_part(),
            r.sign_part() == self.sign_part(),
            r.histogram_spec().nan_count() == self.histogram_spec().nan_count(),
            r.histogram_spec().inf_count() == self.histogram_spec().inf_count(),
            r.histogram_spec().zero_count() == self.histogram_spec().zero_count(),
            r.histogram_spec().max_buckets() == self.histogram_spec().max_buckets(),
            r.histogram_spec().buckets() == self.histogram_spec().buckets(),
            self.wf() ==> r.wf(),
    {
        DiffSummary {
            name: self.name.clone(),
            diff: self.diff,
            allow_diff: self.allow_diff,
            allow_sign: self.allow_sign,
            num_total: self.num_total,
            num_diff_fail: self.num_diff_fail,
            summary_diff: self.summary_diff,
            summary_sign: self.summary_sign,
            histo: self.histo.clone(),
        }
    }
}

impl DiffSummary {
    pub closed spec fn name_spec(&self) -> Seq<char> {
        self.name@
    }

    pub closed spec fn worst(&self) -> Binary64 {
        self.diff
    }

    pub closed spec fn tolerance(&self) -> Binary64 {
        self.allow_diff
    }

    pub closed spec fn sign_allowed(&self) -> bool {
        self.allow_sign
    }

    pub closed spec fn total(&self) -> nat {
        self.num_total as nat
    }

    pub closed spec fn fails(&self) -> nat {
        self.num_diff_fail as nat
    }

    pub closed spec fn diff_part(&self) -> DiffPartSummary {
        self.summary_diff
    }

    pub closed spec fn sign_part(&self) -> DiffPartSummary {
        self.summary_sign
    }

    pub closed spec fn histogram_spec(&self) -> LogHistogram {
        self.histo
    }

    pub closed spec fn wf(&self) -> bool {
        &&& self.num_diff_fail <= self.num_total
        &&& self.summary_diff.count <= self.num_total
        &&& self.summary_sign.count <= self.num_total
        &&& self.num_diff_fail <= self.summary_diff.count
        &&& self.histo.wf()
        &&& self.histo.total() == self.num_total
        &&& self.diff.is_sign_positive_spec()
        &&& self.summary_diff.count == 0 ==> self.diff.bits == 0
    }

    /// The tolerance check passes: the worst difference is at most the
    /// tolerance (never when it is NaN).
    pub open spec fn within_tolerance_spec(&self) -> bool {
        le_bits(self.worst().bits, self.tolerance().bits)
    }

    /// The sign check passes: sign changes are allowed or none occurred.
    pub open spec fn sign_ok_spec(&self) -> bool {
        self.sign_allowed() || self.sign_part().count == 0
    }

    pub open spec fn is_ok_spec(&self) -> bool {
        self.within_tolerance_spec() && self.sign_ok_spec()
    }

    pub open spec fn report_head(&self) -> Seq<char> {
        self.name_spec() + (if self.name_spec().len() > 0 { ": "@ } else { ""@ }) + "count "@ + decimal(self.total())
    }

    pub open spec fn report_worst(&self, t: ValueTexts) -> Seq<char> {
        let d = self.diff_part();
        if d.count > 0 {
            ", worst index "@ + decimal(d.sample_index as nat) + " "@ + pair_text(d.sample_x, d.sample_y, t.worst_x@, t.worst_y@)
                + " diff "@ + t.worst@ + ", "@ + decimal(shown_percent(self.fails(), self.total())) + "% failed tolerance "@
                + t.tolerance@ + ", "@ + joined(self.histogram_spec().pieces())
        } else if self.total() > 0 {
            ", zero 100%, 0% failed tolerance "@ + t.tolerance@
        } else {
            ""@
        }
    }

    pub open spec fn report_sign(&self, t: ValueTexts) -> Seq<char> {
        let sg = self.sign_part();
        if self.total() > 0 {
            ", sign diffs "@ + decimal(shown_percent(sg.count as nat, self.total())) + "%"@ + if sg.count > 0 {
                " first index "@ + decimal(sg.sample_index as nat) + " "@ + pair_text(sg.sample_x, sg.sample_y, t.sign_x@, t.sign_y@)
            } else {
                ""@
            }
        } else {
            ""@
        }
    }

    /// The message of a failed tolerance check, naming the worst sample.
    pub open spec fn tolerance_message(&self, t: ValueTexts) -> Seq<char> {
        let d = self.diff_part();
        "assert failed item "@ + decimal(d.sample_index as nat) + ", "@ + self.name_spec() + ": "@ + pair_text(
            d.sample_x,
            d.sample_y,
            t.worst_x@,
            t.worst_y@,
        ) + " diff abs "@ + t.worst@ + " outside inclusive "@ + t.tolerance@
    }

    /// The message of a failed sign check, naming the first sign change.
    pub open spec fn sign_message(&self, t: ValueTexts) -> Seq<char> {
        let sg = self.sign_part();
        "assert failed item "@ + decimal(sg.sample_index as nat) + ", "@ + self.name_spec() + ": "@ + pair_text(
            sg.sample_x,
            sg.sample_y,
            t.sign_x@,
            t.sign_y@,
        ) + " sign difference disallowed."@
    }

    /// The report: name and count; then the worst sample, its difference,
    /// the failure percentage, the tolerance and the histogram, or, when
    /// every difference was zero, `zero 100%`; then the percentage of sign
    /// changes and the first of them.
    pub open spec fn report(&self, t: ValueTexts) -> Seq<char> {
        self.report_head() + self.report_worst(t) + self.report_sign(t)
    }

    /// An empty summary named `name`, passing differences up to
    /// `allow_diff`, and sign changes if `allow_sign`, whose histogram shows
    /// at most `bucket_count` exponent buckets.
    pub fn new(name: &str, allow_diff: Binary64, allow_sign: bool, bucket_count: usize) -> (r: DiffSummary)
        requires
            bucket_count > 2,
        ensures
            r.wf(),
            r.name_spec() == name@,
            r.tolerance() == allow_diff,
            r.sign_allowed() == allow_sign,
            r.total() == 0,
            r.fails() == 0,
            r.worst().bits == 0,
            r.diff_part() == DiffPartSummary::new_spec(),
            r.sign_part() == DiffPartSummary::new_spec(),
            r.histogram_spec().max_buckets() == bucket_count,
            r.histogram_spec().total() == 0,
    {
        DiffSummary {
            name: name.to_owned(),
            diff: Binary64::zero(),
            allow_diff,
            allow_sign,
            num_total: 0,
            num_diff_fail: 0,
            summary_diff: DiffPartSummary::new(),
            summary_sign: DiffPartSummary::new(),
            histo: LogHistogram::new(bucket_count),
        }
    }

    /// One empty summary per `(name, allow_diff, allow_sign)` entry, all
    /// with histograms of at most `bucket_count` buckets.
    pub fn new_vec(bucket_count: usize, infos: &[(&str, Binary64, bool)]) -> (r: Vec<DiffSummary>)
        requires
            bucket_count > 2,
        ensures
            r@.len() == infos@.len(),
            forall|i: int| 0 <= i < r@.len() ==> {
                let s = #[trigger] r@[i];
                &&& s.wf()
                &&& s.name_spec() == infos@[i].0@
                &&& s.tolerance() == infos@[i].1
                &&& s.sign_allowed() == infos@[i].2
                &&& s.total() == 0
                &&& s.fails() == 0
                &&& s.worst().bits == 0
                &&& s.diff_part() == DiffPartSummary::new_spec()
                &&& s.sign_part() == DiffPartSummary::new_spec()
                &&& s.histogram_spec().max_buckets() == bucket_count
                &&& s.histogram_spec().total() == 0
            },
    {
        let mut r: Vec<DiffSummary> = Vec::new();
        let mut i: usize = 0;
        while i < infos.len()
            invariant
                bucket_count > 2,
                i <= infos@.len(),
                r@.len() == i,
                forall|j: int| 0 <= j < i ==> {
                    let s = #[trigger] r@[j];
                    &&& s.wf()
                    &&& s.name_spec() == infos@[j].0@
                    &&& s.tolerance() == infos@[j].1
                    &&& s.sign_allowed() == infos@[j].2
                    &&& s.total() == 0
                    &&& s.fails() == 0
                    &&& s.worst().bits == 0
                    &&& s.diff_part() == DiffPartSummary::new_spec()
                    &&& s.sign_part() == DiffPartSummary::new_spec()
                    &&& s.histogram_spec().max_buckets() == bucket_count
                    &&& s.histogram_spec().total() == 0
                },
            decreases infos@.len() - i,
        {
            let (name, allow_diff, allow_sign) = infos[i];
            r.push(DiffSummary::new(name, allow_diff, allow_sign, bucket_count));
            i += 1;
        }
        r
    }

    /// Records one comparison of `x` and `y` at `index`, whose metric gave
    /// `outcome` (magnitude, sign changed). `exp10` is the magnitude's
    /// base-10 logarithm truncated toward zero, for the histogram.
    ///
    /// A magnitude that is not zero (NaN included) is counted as a
    /// difference, becomes the worst one if it is worse, and is counted as a
    /// failure unless it is at most the tolerance. A sign change is counted,
    /// and the first one kept. Every magnitude goes into the histogram.
    pub fn add(&mut self, x: Binary64, y: Binary64, index: usize, outcome: (Binary64, bool), exp10: isize)
        requires
            old(self).wf(),
            old(self).total() < usize::MAX,
            outcome.0.is_sign_positive_spec(),
        ensures
            ({
                let pre = *old(self);
                let post = *final(self);
                let d = outcome.0;
                let nonzero = !eq_bits(d.bits, 0);
                let is_worse = worse(d, pre.worst());
                &&& post.wf()
                &&& post.name_spec() == pre.name_spec()
                &&& post.tolerance() == pre.tolerance()
                &&& post.sign_allowed() == pre.sign_allowed()
                &&& post.total() == pre.total() + 1
                &&& post.worst() == if nonzero && is_worse { d } else { pre.worst() }
                &&& post.fails() == pre.fails() + if nonzero && !le_bits(d.bits, pre.tolerance().bits) { 1int } else { 0 }
                &&& nonzero ==> post.diff_part().count == pre.diff_part().count + 1
                &&& nonzero && (is_worse || pre.diff_part().count == 0) ==> (post.diff_part().sample_x == x
                    && post.diff_part().sample_y == y && post.diff_part().sample_index == index)
                &&& nonzero && !(is_worse || pre.diff_part().count == 0) ==> (post.diff_part().sample_x == pre.diff_part().sample_x
                    && post.diff_part().sample_y == pre.diff_part().sample_y
                    && post.diff_part().sample_index == pre.diff_part().sample_index)
                &&& !nonzero ==> post.diff_part() == pre.diff_part()
                &&& outcome.1 ==> post.sign_part().count == pre.sign_part().count + 1
                &&& outcome.1 && pre.sign_part().count == 0 ==> (post.sign_part().sample_x == x
                    && post.sign_part().sample_y == y && post.sign_part().sample_index == index)
                &&& outcome.1 && pre.sign_part().count != 0 ==> (post.sign_part().sample_x == pre.sign_part().sample_x
                    && post.sign_part().sample_y == pre.sign_part().sample_y
                    && post.sign_part().sample_index == pre.sign_part().sample_index)
                &&& !outcome.1 ==> post.sign_part() == pre.sign_part()
                &&& LogHistogram::counted(&pre.histogram_spec(), &post.histogram_spec(), d, exp10)
            }),
    {
        self.num_total += 1;
        let (diff, sign_change) = outcome;
        let is_diff_worst = is_diff_worse(diff, self.diff);
        if !diff.num_eq(Binary64::zero()) {
            self.summary_diff.add(x, y, index, is_diff_worst);
            if is_diff_worst {
                self.diff = diff;
            }
            if !diff.le(self.allow_diff) {
                self.num_diff_fail += 1;
            }
        }
        if sign_change {
            self.summary_sign.add(x, y, index, false);
        }
        self.histo.add(diff, exp10);
    }

    /// Whether the worst difference is within tolerance and any sign changes
    /// were allowed. A NaN worst difference always fails.
    pub fn is_ok(&self) -> (r: bool)
        ensures
            r == self.is_ok_spec(),
    {
        self.within_tolerance() && self.sign_ok()
    }

    /// The tolerance half of [`DiffSummary::is_ok`].
    pub fn within_tolerance(&self) -> (r: bool)
        ensures
            r == self.within_tolerance_spec(),
    {
        self.diff.le(self.allow_diff)
    }

    /// The failure count never exceeds the number of comparisons.
    pub proof fn lemma_fails_bounded(&self)
        requires
            self.wf(),
        ensures
            self.fails() <= self.total(),
    {
    }

    /// A summary that has seen no nonzero difference and no sign change is
    /// ok under any tolerance of zero or more.
    pub proof fn lemma_no_difference_ok(&self)
        requires
            self.wf(),
            self.diff_part().count == 0,
            self.sign_part().count == 0,
            le_bits(0, self.tolerance().bits),
        ensures
            self.is_ok_spec(),
    {
    }

    /// The sign half of [`DiffSummary::is_ok`].
    pub fn sign_ok(&self) -> (r: bool)
        ensures
            r == self.sign_ok_spec(),
    {
        self.allow_sign || self.summary_sign.count == 0
    }

    /// The report, with the values written as in `t`.
    pub fn render(&self, t: &ValueTexts) -> (r: String)
        requires
            self.wf(),
        ensures
            r@ == self.report(*t),
    {
        let mut out: Vec<char> = Vec::new();
        self.push_head(&mut out);
        self.push_worst(&mut out, t);
        self.push_sign(&mut out, t);
        assert(out@ =~= self.report(*t));
        string_from_chars(out)
    }

    /// The failure of the tolerance check, if it fails: the worst
    /// difference exceeds the tolerance or is NaN.
    pub fn tolerance_failure(&self, t: &ValueTexts) -> (r: Option<String>)
        ensures
            r is None <==> self.within_tolerance_spec(),
            r matches Some(m) ==> m@ == self.tolerance_message(*t),
    {
        if self.within_tolerance() {
            None
        } else {
            let mut out: Vec<char> = Vec::new();
            push_str(&mut out, "assert failed item ");
            push_decimal(&mut out, self.summary_diff.sample_index as u64);
            push_str(&mut out, ", ");
            push_str(&mut out, self.name.as_str());
            push_str(&mut out, ": ");
            self.push_pair(&mut out, self.summary_diff.sample_x, self.summary_diff.sample_y, &t.worst_x, &t.worst_y);
            push_str(&mut out, " diff abs ");
            push_str(&mut out, t.worst.as_str());
            push_str(&mut out, " outside inclusive ");
            push_str(&mut out, t.tolerance.as_str());
            assert(out@ =~= self.tolerance_message(*t));
            Some(string_from_chars(out))
        }
    }

    /// The failure of the sign check, if it fails: sign changes occurred
    /// and are not allowed.
    pub fn sign_failure(&self, t: &ValueTexts) -> (r: Option<String>)
        ensures
            r is None <==> self.sign_ok_spec(),
            r matches Some(m) ==> m@ == self.sign_message(*t),
    {
        if self.sign_ok() {
            None
        } else {
            let mut out: Vec<char> = Vec::new();
            push_str(&mut out, "assert failed item ");
            push_decimal(&mut out, self.summary_sign.sample_index as u64);
            push_str(&mut out, ", ");
            push_str(&mut out, self.name.as_str());
            push_str(&mut out, ": ");
            self.push_pair(&mut out, self.summary_sign.sample_x, self.summary_sign.sample_y, &t.sign_x, &t.sign_y);
            push_str(&mut out, " sign difference disallowed.");
            assert(out@ =~= self.sign_message(*t));
            Some(string_from_chars(out))
        }
    }

    fn push_head(&self, out: &mut Vec<char>)
        ensures
            final(out)@ == old(out)@ + self.report_head(),
    {
        push_str(out, self.name.as_str());
        if self.name.unicode_len() > 0 {
            push_str(out, ": ");
        } else {
            push_str(out, "");
        }
        push_str(out, "count ");
        push_decimal(out, self.num_total as u64);
        assert(final(out)@ =~= old(out)@ + self.report_head());
    }

    fn push_worst(&self, out: &mut Vec<char>, t: &ValueTexts)
        requires
            self.wf(),
        ensures
            final(out)@ == old(out)@ + self.report_worst(*t),
    {
        if self.summary_diff.count > 0 {
            push_str(out, ", worst index ");
            push_decimal(out, self.summary_diff.sample_index as u64);
            push_str(out, " ");
            self.push_pair(out, self.summary_diff.sample_x, self.summary_diff.sample_y, &t.worst_x, &t.worst_y);
            push_str(out, " diff ");
            push_str(out, t.worst.as_str());
            push_str(out, ", ");
            push_decimal(out, to_percent(self.num_diff_fail, self.num_total) as u64);
            push_str(out, "% failed tolerance ");
            push_str(out, t.tolerance.as_str());
            push_str(out, ", ");
            let histo = self.histo.render();
            push_str(out, histo.as_str());
        } else if self.num_total > 0 {
            push_str(out, ", zero 100%, 0% failed tolerance ");
            push_str(out, t.tolerance.as_str());
        } else {
            push_str(out, "");
        }
        assert(final(out)@ =~= old(out)@ + self.report_worst(*t));
    }

    fn push_sign(&self, out: &mut Vec<char>, t: &ValueTexts)
        ensures
            final(out)@ == old(out)@ + self.report_sign(*t),
    {
        if self.num_total > 0 {
            push_str(out, ", sign diffs ");
            push_decimal(out, to_percent(self.summary_sign.count, self.num_total) as u64);
            push_str(out, "%");
            if self.summary_sign.count > 0 {
                push_str(out, " first index ");
                push_decimal(out, self.summary_sign.sample_index as u64);
                push_str(out, " ");
                self.push_pair(out, self.summary_sign.sample_x, self.summary_sign.sample_y, &t.sign_x, &t.sign_y);
            } else {
                push_str(out, "");
            }
        } else {
            push_str(out, "");
        }
        assert(final(out)@ =~= old(out)@ + self.report_sign(*t));
    }

    fn push_pair(&self, out: &mut Vec<char>, x: Binary64, y: Binary64, x_text: &String, y_text: &String)
        ensures
            final(out)@ == old(out)@ + pair_text(x, y, x_text@, y_text@),
    {
        let px = help_sign(x);
        push_str(out, px.as_str());
        push_str(out, x_text.as_str());
        push_str(out, " vs ");
        let py = help_sign(y);
        push_str(out, py.as_str());
        push_str(out, y_text.as_str());
        assert(final(out)@ =~= old(out)@ + pair_text(x, y, x_text@, y_text@));
    }

    pub fn name(&self) -> (r: &str)
        ensures
            r@ == self.name_spec(),
    {
        self.name.as_str()
    }

    /// The worst difference so far, zero before any nonzero one.
    pub fn worst_diff(&self) -> (r: Binary64)
        ensures
            r == self.worst(),
    {
        self.diff
    }

    pub fn allow_diff(&self) -> (r: Binary64)
        ensures
            r == self.tolerance(),
    {
        self.allow_diff
    }

    pub fn allow_sign(&self) -> (r: bool)
        ensures
            r == self.sign_allowed(),
    {
        self.allow_sign
    }

    /// The number of comparisons recorded.
    pub fn num_total(&self) -> (r: usize)
        ensures
            r == self.total(),
    {
        self.num_total
    }

    /// The number of differences beyond the tolerance.
    pub fn num_diff_fail(&self) -> (r: usize)
        requires
            self.wf(),
        ensures
            r == self.fails(),
            r <= self.total(),
    {
        self.num_diff_fail
    }

    /// Nonzero differences: their count and the worst one.
    pub fn summary_diff(&self) -> (r: DiffPartSummary)
        ensures
            r == self.diff_part(),
    {
        self.summary_diff
    }

    /// Sign changes: their count and the first one.
    pub fn summary_sign(&self) -> (r: DiffPartSummary)
        ensures
            r == self.sign_part(),
    {
        self.summary_sign
    }

    /// The histogram of every difference recorded.
    pub fn histogram(&self) -> (r: &LogHistogram)
        requires
            self.wf(),
        ensures
            *r == self.histogram_spec(),
            r.wf(),
    {
        &self.histo
    }
}

} // verus!
