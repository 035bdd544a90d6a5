//! Diagnostics: one positioned message for each syntax error, in the
//! parser's order, and the update cycle that produces a document's report.

use crate::lines::lemma_positions_ordered;
use crate::message::{message_text, render_message};
use crate::record::{models_of, ParseErrorModel, ParseErrorRecord};
use crate::text_index::{position_of, precedes, IndexError, Position, TextIndex};
use vstd::prelude::*;

verus! {

/// The part of a text between two positions.
#[derive(Clone, Copy, Debug, PartialEq, Eq, Structural)]
pub struct PositionRange {
    pub start: Position,
    pub end: Position,
}

/// One diagnostic: where the error is and what it says. Every diagnostic
/// of this library reports an error; there are no lesser severities.
#[derive(Clone, Debug, PartialEq, Eq)]
pub struct DiagnosticRecord {
    pub range: PositionRange,
    pub message: String,
}

/// A `DiagnosticRecord` as a mathematical value.
pub struct DiagnosticModel {
    pub range: PositionRange,
    pub message: Seq<char>,
}

impl View for DiagnosticRecord {
    type V = DiagnosticModel;

    open spec fn view(&self) -> DiagnosticModel {
        DiagnosticModel { range: self.range, message: self.message@ }
    }
}

/// The models of a sequence of diagnostics, in the same order.
pub open spec fn diagnostic_models(diagnostics: Seq<DiagnosticRecord>) -> Seq<DiagnosticModel> {
    diagnostics.map_values(|diagnostic: DiagnosticRecord| diagnostic@)
}

/// The diagnostics of one document version.
#[derive(Clone, Debug, PartialEq, Eq)]
pub struct DiagnosticReport {
    /// The version of the document that the diagnostics were computed from.
    pub version: i32,
    /// One diagnostic for each syntax error, in the parser's order.
    pub diagnostics: Vec<DiagnosticRecord>,
}

/// A `DiagnosticReport` as a mathematical value.
pub struct ReportModel {
    pub version: i32,
    pub diagnostics: Seq<DiagnosticModel>,
}

impl View for DiagnosticReport {
    type V = ReportModel;

    open spec fn view(&self) -> ReportModel {
        ReportModel { version: self.version, diagnostics: diagnostic_models(self.diagnostics@) }
    }
}

/// Whether both ends of an error's span are offsets of the text.
pub open spec fn span_in_text(text: Seq<char>, error: ParseErrorModel) -> bool {
    error.start <= text.len() && error.end <= text.len()
}

/// The diagnostic of one syntax error in a text: the positions of the two
/// ends of its span, and its message. An error whose span leaves the text
/// has none; the end that is reported is the start if that is outside, else
/// the end.
pub open spec fn diagnostic_of(text: Seq<char>, error: ParseErrorModel) -> Result<
    DiagnosticModel,
    IndexError,
> {
    match position_of(text, error.start) {
        Err(e) => Err(e),
        Ok(start) => match position_of(text, error.end) {
            Err(e) => Err(e),
            Ok(end) => Ok(
                DiagnosticModel {
                    range: PositionRange { start, end },
                    message: message_text(error),
                },
            ),
        },
    }
}

/// The diagnostics of a sequence of syntax errors, one for each in the
/// same order, or the failure of the first error whose span leaves the text.
pub open spec fn diagnostics_of(text: Seq<char>, errors: Seq<ParseErrorModel>) -> Result<
    Seq<DiagnosticModel>,
    IndexError,
>
    decreases errors.len(),
{
    if errors.len() == 0 {
        Ok(Seq::<DiagnosticModel>::empty())
    } else {
        match diagnostics_of(text, errors.drop_last()) {
            Err(e) => Err(e),
            Ok(diagnostics) => match diagnostic_of(text, errors.last()) {
                Err(e) => Err(e),
                Ok(diagnostic) => Ok(diagnostics.push(diagnostic)),
            },
        }
    }
}

/// The report of one update: the diagnostics of the errors, tagged with
/// the version that was handed in, or the failure that aborts the update.
pub open spec fn report_of(text: Seq<char>, version: i32, errors: Seq<ParseErrorModel>) -> Result<
    ReportModel,
    IndexError,
> {
    match diagnostics_of(text, errors) {
        Err(e) => Err(e),
        Ok(diagnostics) => Ok(ReportModel { version, diagnostics }),
    }
}

/// What an update returned, as a mathematical value.
pub open spec fn outcome_model(result: Result<DiagnosticReport, IndexError>) -> Result<
    ReportModel,
    IndexError,
> {
    match result {
        Ok(report) => Ok(report@),
        Err(e) => Err(e),
    }
}

/// Renders the diagnostic of one syntax error. `index` must be the index of
/// the text that was parsed. The result is `Ok` exactly when both ends of
/// the span are offsets of the text.
pub fn render_diagnostic(index: &TextIndex, error: &ParseErrorRecord) -> (result: Result<
    DiagnosticRecord,
    IndexError,
>)
    ensures
        result is Ok <==> span_in_text(index@, error@),
        match result {
            Ok(diagnostic) => {
                &&& diagnostic_of(index@, error@) == Ok::<DiagnosticModel, IndexError>(diagnostic@)
                &&& error.span.start <= error.span.end ==> precedes(
                    diagnostic.range.start,
                    diagnostic.range.end,
                )
            },
            Err(e) => diagnostic_of(index@, error@) == Err::<DiagnosticModel, IndexError>(e),
        },
{
    proof {
        if error.span.start <= error.span.end <= index@.len() {
            lemma_positions_ordered(index@, error.span.start as int, error.span.end as int);
        }
    }
    let start = match index.to_position(error.span.start) {
        Ok(position) => position,
        Err(e) => {
            return Err(e);
        },
    };
    let end = match index.to_position(error.span.end) {
        Ok(position) => position,
        Err(e) => {
            return Err(e);
        },
    };
    let message = render_message(error);
    Ok(DiagnosticRecord { range: PositionRange { start, end }, message })
}

/// Renders the diagnostics of all the errors of one parse, one for each
/// error and in the same order. The result is `Ok` exactly when every span
/// lies in the text; otherwise nothing is rendered and the failure of the
/// first error whose span leaves the text is returned.
pub fn render_diagnostics(index: &TextIndex, errors: &Vec<ParseErrorRecord>) -> (result: Result<
    Vec<DiagnosticRecord>,
    IndexError,
>)
    ensures
        result is Ok <==> forall|i: int|
            0 <= i < errors.len() ==> span_in_text(index@, #[trigger] errors[i]@),
        match result {
            Ok(diagnostics) => {
                &&& diagnostics_of(index@, models_of(errors@)) == Ok::<
                    Seq<DiagnosticModel>,
                    IndexError,
                >(diagnostic_models(diagnostics@))
                &&& diagnostics.len() == errors.len()
                &&& forall|i: int|
                    0 <= i < errors.len() ==> diagnostic_of(index@, errors[i]@) == Ok::<
                        DiagnosticModel,
                        IndexError,
                    >(#[trigger] diagnostics[i]@)
            },
            Err(e) => {
                &&& diagnostics_of(index@, models_of(errors@)) == Err::<
                    Seq<DiagnosticModel>,
                    IndexError,
                >(e)
                &&& exists|k: int|
                    {
                        &&& 0 <= k < errors.len()
                        &&& diagnostic_of(index@, #[trigger] errors[k]@) == Err::<
                            DiagnosticModel,
                            IndexError,
                        >(e)
                        &&& forall|i: int| 0 <= i < k ==> span_in_text(index@, #[trigger] errors[i]@)
                    }
            },
        },
{
    let ghost text = index@;
    let ghost models = models_of(errors@);
    let mut diagnostics: Vec<DiagnosticRecord> = Vec::new();
    let mut i: usize = 0;
    assert(models.take(0) =~= Seq::<ParseErrorModel>::empty());
    assert(diagnostic_models(diagnostics@) =~= Seq::<DiagnosticModel>::empty());
    while i < errors.len()
        invariant
            i <= errors.len(),
            text == index@,
            models == models_of(errors@),
            diagnostics.len() == i,
            diagnostics_of(text, models.take(i as int)) == Ok::<Seq<DiagnosticModel>, IndexError>(
                diagnostic_models(diagnostics@),
            ),
            forall|j: int|
                0 <= j < i ==> diagnostic_of(text, errors[j]@) == Ok::<DiagnosticModel, IndexError>(
                    #[trigger] diagnostics[j]@,
                ),
            forall|j: int| 0 <= j < i ==> span_in_text(text, #[trigger] errors[j]@),
        decreases errors.len() - i,
    {
        let ghost upto = models.take(i + 1);
        assert(upto.drop_last() =~= models.take(i as int));
        assert(upto.last() == errors[i as int]@);
        match render_diagnostic(index, &errors[i]) {
            Ok(diagnostic) => {
                let ghost before = diagnostics@;
                diagnostics.push(diagnostic);
                assert(diagnostic_models(diagnostics@) =~= diagnostic_models(before).push(
                    diagnostic@,
                ));
            },
            Err(e) => {
                proof {
                    lemma_failure_reaches(text, models, i + 1, models.len() as int, e);
                    assert(models.take(models.len() as int) =~= models);
                    assert(!span_in_text(text, errors[i as int]@));
                }
                return Err(e);
            },
        }
        i += 1;
    }
    assert(models.take(i as int) =~= models);
    Ok(diagnostics)
}

/// A failure of the prefix of length `failed` is the failure of the prefix
/// of length `n`, for `n` from `failed` on.
proof fn lemma_failure_reaches(
    text: Seq<char>,
    errors: Seq<ParseErrorModel>,
    failed: int,
    n: int,
    e: IndexError,
)
    requires
        0 <= failed <= n <= errors.len(),
        diagnostics_of(text, errors.take(failed)) == Err::<Seq<DiagnosticModel>, IndexError>(e),
    ensures
        diagnostics_of(text, errors.take(n)) == Err::<Seq<DiagnosticModel>, IndexError>(e),
    decreases n - failed,
{
    if failed < n {
        lemma_failure_reaches(text, errors, failed, n - 1, e);
        assert(errors.take(n).drop_last() =~= errors.take(n - 1));
    }
}

/// Runs one update of a document: indexes `text`, renders one diagnostic
/// for each of the `errors` that the parser found in that same text, and
/// tags them with `version`.
///
/// `Ok` holds the report to publish in place of the document's earlier
/// diagnostics; with no errors it is an empty report, which clears them.
/// `Err` means that some span does not lie in the text, so the errors
/// cannot be those of this text: the update is to be dropped and nothing
/// published.
pub fn process_update(text: &str, version: i32, errors: &Vec<ParseErrorRecord>) -> (result: Result<
    DiagnosticReport,
    IndexError,
>)
    ensures
        outcome_model(result) == report_of(text@, version, models_of(errors@)),
        result is Ok <==> forall|i: int|
            0 <= i < errors.len() ==> span_in_text(text@, #[trigger] errors[i]@),
        errors.len() == 0 ==> result is Ok,
        match result {
            Ok(report) => {
                &&& report.version == version
                &&& report.diagnostics.len() == errors.len()
                &&& forall|i: int|
                    0 <= i < errors.len() ==> diagnostic_of(text@, errors[i]@) == Ok::<
                        DiagnosticModel,
                        IndexError,
                    >(#[trigger] report.diagnostics[i]@)
            },
            Err(e) => exists|k: int|
                {
                    &&& 0 <= k < errors.len()
                    &&& diagnostic_of(text@, #[trigger] errors[k]@) == Err::<
                        DiagnosticModel,
                        IndexError,
                    >(e)
                    &&& forall|i: int| 0 <= i < k ==> span_in_text(text@, #[trigger] errors[i]@)
                },
        },
{
    let index = TextIndex::new(text);
    match render_diagnostics(&index, errors) {
        Ok(diagnostics) => Ok(DiagnosticReport { version, diagnostics }),
        Err(e) => Err(e),
    }
}

/// No errors, no diagnostics: an update without syntax errors has a
/// report, it is empty, and it carries the version that was handed in.
pub proof fn lemma_no_errors_empty_report(text: Seq<char>, version: i32)
    ensures
        report_of(text, version, Seq::<ParseErrorModel>::empty()) == Ok::<ReportModel, IndexError>(
            ReportModel { version, diagnostics: Seq::<DiagnosticModel>::empty() },
        ),
{
}

/// The diagnostics exist exactly when every span lies in the text.
pub proof fn lemma_diagnostics_exist(text: Seq<char>, errors: Seq<ParseErrorModel>)
    ensures
        diagnostics_of(text, errors) is Ok <==> forall|i: int|
            0 <= i < errors.len() ==> span_in_text(text, #[trigger] errors[i]),
    decreases errors.len(),
{
    if errors.len() > 0 {
        let front = errors.drop_last();
        lemma_diagnostics_exist(text, front);
        assert(forall|i: int| 0 <= i < front.len() ==> front[i] == errors[i]);
        if diagnostics_of(text, errors) is Ok {
            assert forall|i: int| 0 <= i < errors.len() implies span_in_text(
                text,
                #[trigger] errors[i],
            ) by {
                if i < front.len() {
                    assert(span_in_text(text, front[i]));
                }
            }
        }
        if forall|i: int| 0 <= i < errors.len() ==> span_in_text(text, #[trigger] errors[i]) {
            assert(span_in_text(text, errors[errors.len() - 1]));
            assert forall|i: int| 0 <= i < front.len() implies span_in_text(
                text,
                #[trigger] front[i],
            ) by {
                assert(span_in_text(text, errors[i]));
            }
        }
    }
}

/// One diagnostic for each error, in the same order: there are as many
/// diagnostics as errors, and the diagnostic at each place is that of the
/// error at the same place, with the positions of the two ends of its span
/// and with its message.
pub proof fn lemma_diagnostics_in_order(
    text: Seq<char>,
    errors: Seq<ParseErrorModel>,
    diagnostics: Seq<DiagnosticModel>,
)
    requires
        diagnostics_of(text, errors) == Ok::<Seq<DiagnosticModel>, IndexError>(diagnostics),
    ensures
        diagnostics.len() == errors.len(),
        forall|i: int|
            0 <= i < errors.len() ==> diagnostic_of(text, #[trigger] errors[i]) == Ok::<
                DiagnosticModel,
                IndexError,
            >(diagnostics[i]),
        forall|i: int|
            #![trigger diagnostics[i]]
            0 <= i < errors.len() ==> {
                &&& position_of(text, errors[i].start) == Ok::<Position, IndexError>(
                    diagnostics[i].range.start,
                )
                &&& position_of(text, errors[i].end) == Ok::<Position, IndexError>(
                    diagnostics[i].range.end,
                )
                &&& diagnostics[i].message == message_text(errors[i])
            },
    decreases errors.len(),
{
    if errors.len() > 0 {
        let front = errors.drop_last();
        let earlier = diagnostics_of(text, front)->Ok_0;
        lemma_diagnostics_in_order(text, front, earlier);
        assert forall|i: int| 0 <= i < errors.len() implies diagnostic_of(
            text,
            #[trigger] errors[i],
        ) == Ok::<DiagnosticModel, IndexError>(diagnostics[i]) by {
            if i < front.len() {
                assert(front[i] == errors[i]);
                assert(earlier[i] == diagnostics[i]);
            }
        }
    }
}

/// Running an update twice on the same text, version and errors gives the
/// same outcome both times: the same failure, or reports that agree in
/// version and in every range and message.
pub proof fn lemma_update_idempotent(
    text: Seq<char>,
    version: i32,
    errors: Seq<ParseErrorRecord>,
    first: Result<DiagnosticReport, IndexError>,
    second: Result<DiagnosticReport, IndexError>,
)
    requires
        outcome_model(first) == report_of(text, version, models_of(errors)),
        outcome_model(second) == report_of(text, version, models_of(errors)),
    ensures
        outcome_model(first) == outcome_model(second),
        first is Ok <==> second is Ok,
        first matches Ok(a) ==> second matches Ok(b) && a.version == b.version
            && a.diagnostics.len() == b.diagnostics.len() && forall|i: int|
            0 <= i < a.diagnostics.len() ==> (#[trigger] a.diagnostics[i]).range
                == b.diagnostics[i].range && a.diagnostics[i].message@ == b.diagnostics[i].message@,
{
    if let Ok(a) = first {
        let b = second->Ok_0;
        assert(a@ == b@);
        assert(a.diagnostics.len() == diagnostic_models(a.diagnostics@).len());
        assert(b.diagnostics.len() == diagnostic_models(b.diagnostics@).len());
        assert forall|i: int| 0 <= i < a.diagnostics.len() implies (#[trigger] a.diagnostics[i]).range
            == b.diagnostics[i].range && a.diagnostics[i].message@
            == b.diagnostics[i].message@ by {
            assert(diagnostic_models(a.diagnostics@)[i] == a.diagnostics[i]@);
            assert(diagnostic_models(b.diagnostics@)[i] == b.diagnostics[i]@);
        }
    }
}

} // verus!
