//! The files of one event: the transcript of its meeting and the attendance report.
//!
//! A meeting can have either without the other, and neither to somebody who did not
//! organize it. So nothing that is missing on the way is an error.

use vstd::prelude::*;
use crate::graph::client::{Fetched, FetchedView, PageOutcome};
use crate::graph::records::{
    AttendanceReport, AttendanceReportView, DateTimeTimeZone, GraphEvent, GraphEventView,
    OnlineMeeting, Transcript, TranscriptView,
};
use crate::graph::sync;
use crate::graph::sync::{
    attendance_file_name, event_transcript_name, join_url_of, Artifacts, ArtifactsView,
};
use crate::graph::transcript;
use crate::graph::transcript::{pick_report_for, pick_transcript_for};
use crate::graph::urls;
use crate::graph::urls::{
    attendance_records_url, attendance_reports_url, online_meeting_lookup_url,
    transcript_content_url, transcripts_url,
};

verus! {

/// How far a search has come.
enum Stage {
    /// The meeting that is joined under this address is not known yet.
    Meeting(String),
    /// The transcripts of this meeting are not known yet.
    Transcripts(String),
    /// A transcript of this meeting was chosen.
    Content(String, String),
    /// The attendance reports of this meeting are not known yet.
    Reports(String),
    /// A report of this meeting was chosen.
    Records(String, AttendanceReport),
    Over,
}

#[verifier::ext_equal]
pub enum StageView {
    Meeting(Seq<char>),
    Transcripts(Seq<char>),
    Content(Seq<char>, Seq<char>),
    Reports(Seq<char>),
    Records(Seq<char>, AttendanceReportView),
    Over,
}

/// What a search asks for next, and where.
pub enum Ask {
    Meetings(String),
    Transcripts(String),
    Content(String),
    Reports(String),
    Records(String),
    Nothing,
}

#[verifier::ext_equal]
pub enum AskView {
    Meetings(Seq<char>),
    Transcripts(Seq<char>),
    Content(Seq<char>),
    Reports(Seq<char>),
    Records(Seq<char>),
    Nothing,
}

impl DeepView for Ask {
    type V = AskView;

    open spec fn deep_view(&self) -> AskView {
        match self {
            Ask::Meetings(u) => AskView::Meetings(u@),
            Ask::Transcripts(u) => AskView::Transcripts(u@),
            Ask::Content(u) => AskView::Content(u@),
            Ask::Reports(u) => AskView::Reports(u@),
            Ask::Records(u) => AskView::Records(u@),
            Ask::Nothing => AskView::Nothing,
        }
    }
}

/// A search for the files of one event.
pub struct Search {
    start: DateTimeTimeZone,
    end: DateTimeTimeZone,
    transcript_name: String,
    attendance_name: String,
    stage: Stage,
    transcript: Option<String>,
    attendance: Option<String>,
}

#[verifier::ext_equal]
pub struct SearchView {
    pub start: Seq<char>,
    pub end: Seq<char>,
    /// What the files are called where there are any.
    pub transcript_name: Seq<char>,
    pub attendance_name: Seq<char>,
    pub stage: StageView,
    /// The files found.
    pub files: ArtifactsView,
}

impl View for Search {
    type V = SearchView;

    closed spec fn view(&self) -> SearchView {
        SearchView {
            start: self.start.date_time@,
            end: self.end.date_time@,
            transcript_name: self.transcript_name@,
            attendance_name: self.attendance_name@,
            stage: match self.stage {
                Stage::Meeting(j) => StageView::Meeting(j@),
                Stage::Transcripts(m) => StageView::Transcripts(m@),
                Stage::Content(m, t) => StageView::Content(m@, t@),
                Stage::Reports(m) => StageView::Reports(m@),
                Stage::Records(m, r) => StageView::Records(m@, r.deep_view()),
                Stage::Over => StageView::Over,
            },
            files: (self.transcript.deep_view(), self.attendance.deep_view()),
        }
    }
}

/// The records of a collection, where it could be read.
pub open spec fn served<T: DeepView>(outcome: PageOutcome<T>) -> Option<Seq<T::V>> {
    match outcome {
        PageOutcome::Page(records, _) => Some(records.deep_view()),
        _ => None,
    }
}

/// A search before its first question. An event that is not joined anywhere has no
/// files.
pub open spec fn opening(e: GraphEventView) -> SearchView {
    SearchView {
        start: e.start,
        end: e.end,
        transcript_name: transcript::transcript_name(e.start, e.subject, e.id),
        attendance_name: sync::attendance_name(e),
        stage: match e.join_url() {
            Some(j) => StageView::Meeting(j),
            None => StageView::Over,
        },
        files: (None, None),
    }
}

impl SearchView {
    /// What is asked for next, and where.
    pub open spec fn ask(self) -> AskView {
        match self.stage {
            StageView::Meeting(j) => AskView::Meetings(urls::lookup_address(j)),
            StageView::Transcripts(m) => AskView::Transcripts(urls::transcripts_address(m)),
            StageView::Content(m, t) => AskView::Content(urls::content_address(m, t)),
            StageView::Reports(m) => AskView::Reports(urls::reports_address(m)),
            StageView::Records(m, r) => AskView::Records(urls::records_address(m, r.id)),
            StageView::Over => AskView::Nothing,
        }
    }

    /// The same search at another stage.
    pub open spec fn at(self, stage: StageView) -> SearchView {
        SearchView { stage, ..self }
    }

    /// After the meetings that are joined under the address: the first of them counts.
    pub open spec fn told_meetings(self, found: Option<Seq<Seq<char>>>) -> SearchView {
        match self.stage {
            StageView::Meeting(_) => if found is Some && found->Some_0.len() > 0 {
                self.at(StageView::Transcripts(found->Some_0[0]))
            } else {
                self.at(StageView::Over)
            },
            _ => self,
        }
    }

    /// After the transcripts of the meeting: the one of this occurrence is wanted.
    pub open spec fn told_transcripts(self, found: Option<Seq<TranscriptView>>) -> SearchView {
        match self.stage {
            StageView::Transcripts(m) => {
                let chosen = match found {
                    Some(list) => transcript::chosen_transcript(self.start, self.end, list),
                    None => None,
                };
                match chosen {
                    Some(t) => self.at(StageView::Content(m, t.id)),
                    None => self.at(StageView::Reports(m)),
                }
            },
            _ => self,
        }
    }

    /// After the content of the transcript.
    pub open spec fn told_content(self, fetched: FetchedView) -> SearchView {
        match self.stage {
            StageView::Content(m, _) => SearchView {
                stage: StageView::Reports(m),
                files: (
                    if fetched is Body {
                        Some(self.transcript_name)
                    } else {
                        self.files.0
                    },
                    self.files.1,
                ),
                ..self
            },
            _ => self,
        }
    }

    /// After the attendance reports of the meeting: the one of this occurrence is
    /// wanted.
    pub open spec fn told_reports(self, found: Option<Seq<AttendanceReportView>>) -> SearchView {
        match self.stage {
            StageView::Reports(m) => {
                let chosen = match found {
                    Some(list) => transcript::chosen_report(self.start, self.end, list),
                    None => None,
                };
                match chosen {
                    Some(r) => self.at(StageView::Records(m, r)),
                    None => self.at(StageView::Over),
                }
            },
            _ => self,
        }
    }

    /// After the records of the report.
    pub open spec fn told_records(self, given: bool) -> SearchView {
        match self.stage {
            StageView::Records(_, _) => SearchView {
                stage: StageView::Over,
                files: (
                    self.files.0,
                    if given {
                        Some(self.attendance_name)
                    } else {
                        self.files.1
                    },
                ),
                ..self
            },
            _ => self,
        }
    }
}

impl Search {
    /// A search before its first question.
    pub fn begin(e: &GraphEvent) -> (s: Search)
        ensures
            s@ == opening(e.deep_view()),
    {
        let stage = match join_url_of(e) {
            Some(j) => Stage::Meeting(j),
            None => Stage::Over,
        };
        Search {
            start: DateTimeTimeZone {
                date_time: e.start.date_time.clone(),
                time_zone: e.start.time_zone.clone(),
            },
            end: DateTimeTimeZone {
                date_time: e.end.date_time.clone(),
                time_zone: e.end.time_zone.clone(),
            },
            transcript_name: event_transcript_name(e),
            attendance_name: attendance_file_name(e),
            stage,
            transcript: None,
            attendance: None,
        }
    }

    /// What is asked for next, and where.
    pub fn ask(&self) -> (r: Ask)
        ensures
            r.deep_view() == self@.ask(),
    {
        match &self.stage {
            Stage::Meeting(j) => Ask::Meetings(online_meeting_lookup_url(j.as_str())),
            Stage::Transcripts(m) => Ask::Transcripts(transcripts_url(m.as_str())),
            Stage::Content(m, t) => Ask::Content(transcript_content_url(m.as_str(), t.as_str())),
            Stage::Reports(m) => Ask::Reports(attendance_reports_url(m.as_str())),
            Stage::Records(m, r) => Ask::Records(
                attendance_records_url(m.as_str(), r.id.as_str()),
            ),
            Stage::Over => Ask::Nothing,
        }
    }

    /// The report whose records are asked for.
    pub fn report(&self) -> (r: Option<&AttendanceReport>)
        ensures
            (match r {
                Some(x) => Some(x.deep_view()),
                None => None,
            }) == (match self@.stage {
                StageView::Records(_, x) => Some(x),
                _ => None,
            }),
    {
        match &self.stage {
            Stage::Records(_, r) => Some(r),
            _ => None,
        }
    }

    /// Takes the meetings that are joined under the address.
    pub fn meetings(self, outcome: PageOutcome<OnlineMeeting>) -> (s: Search)
        ensures
            s@ == self@.told_meetings(served(outcome)),
    {
        let stage = match self.stage {
            Stage::Meeting(_) => match outcome {
                PageOutcome::Page(list, _) => {
                    if list.len() > 0 {
                        assert(list.deep_view()[0] == list@[0].id@);
                        Stage::Transcripts(list[0].id.clone())
                    } else {
                        Stage::Over
                    }
                },
                _ => Stage::Over,
            },
            other => other,
        };
        Search { stage, ..self }
    }

    /// Takes the transcripts of the meeting.
    pub fn transcripts(self, outcome: PageOutcome<Transcript>) -> (s: Search)
        ensures
            s@ == self@.told_transcripts(served(outcome)),
    {
        let stage = match self.stage {
            Stage::Transcripts(m) => {
                let chosen = match &outcome {
                    PageOutcome::Page(list, _) => match pick_transcript_for(
                        &self.start,
                        &self.end,
                        list.as_slice(),
                    ) {
                        Some(t) => Some(t.id.clone()),
                        None => None,
                    },
                    _ => None,
                };
                match chosen {
                    Some(t) => Stage::Content(m, t),
                    None => Stage::Reports(m),
                }
            },
            other => other,
        };
        Search { stage, ..self }
    }

    /// Takes what reading the transcript brought. Where there is content, the file
    /// under which it is to be kept is returned.
    pub fn content(self, fetched: &Fetched) -> (r: (Search, Option<String>))
        ensures
            r.0@ == self@.told_content(fetched.deep_view()),
            r.1.deep_view() == if self@.stage is Content && fetched is Body {
                Some(self@.transcript_name)
            } else {
                None
            },
    {
        match self.stage {
            Stage::Content(m, _) => {
                let (transcript, file) = match fetched {
                    Fetched::Body(_) => (
                        Some(self.transcript_name.clone()),
                        Some(self.transcript_name.clone()),
                    ),
                    _ => (self.transcript, None),
                };
                (Search { stage: Stage::Reports(m), transcript, ..self }, file)
            },
            other => (Search { stage: other, ..self }, None),
        }
    }

    /// Takes the attendance reports of the meeting.
    pub fn reports(self, outcome: PageOutcome<AttendanceReport>) -> (s: Search)
        ensures
            s@ == self@.told_reports(served(outcome)),
    {
        let stage = match self.stage {
            Stage::Reports(m) => {
                let chosen = match &outcome {
                    PageOutcome::Page(list, _) => match pick_report_for(
                        &self.start,
                        &self.end,
                        list.as_slice(),
                    ) {
                        Some(r) => Some(
                            AttendanceReport {
                                id: r.id.clone(),
                                meeting_start: r.meeting_start.clone(),
                                meeting_end: r.meeting_end.clone(),
                                total_participant_count: r.total_participant_count,
                            },
                        ),
                        None => None,
                    },
                    _ => None,
                };
                match chosen {
                    Some(r) => Stage::Records(m, r),
                    None => Stage::Over,
                }
            },
            other => other,
        };
        Search { stage, ..self }
    }

    /// Takes what asking for the records of the report brought. Where there are
    /// records, the file under which they are to be kept is returned.
    pub fn records<T>(self, outcome: &PageOutcome<T>) -> (r: (Search, Option<String>))
        ensures
            r.0@ == self@.told_records(*outcome is Page),
            r.1.deep_view() == if self@.stage is Records && *outcome is Page {
                Some(self@.attendance_name)
            } else {
                None
            },
    {
        match self.stage {
            Stage::Records(_, _) => {
                let (attendance, file) = match outcome {
                    PageOutcome::Page(_, _) => (
                        Some(self.attendance_name.clone()),
                        Some(self.attendance_name.clone()),
                    ),
                    _ => (self.attendance, None),
                };
                (Search { stage: Stage::Over, attendance, ..self }, file)
            },
            other => (Search { stage: other, ..self }, None),
        }
    }

    /// The files found.
    pub fn finish(self) -> (r: Artifacts)
        ensures
            r.deep_view() == self@.files,
    {
        (self.transcript, self.attendance)
    }
}

/// All that Graph has to say about one event.
#[verifier::ext_equal]
pub struct Answers {
    pub meetings: Option<Seq<Seq<char>>>,
    pub transcripts: Option<Seq<TranscriptView>>,
    pub content: FetchedView,
    pub reports: Option<Seq<AttendanceReportView>>,
    pub records: bool,
}

/// A search told everything in order; it passes over what it did not ask for.
pub open spec fn told(s: SearchView, a: Answers) -> SearchView {
    s.told_meetings(a.meetings).told_transcripts(a.transcripts).told_content(
        a.content,
    ).told_reports(a.reports).told_records(a.records)
}

/// A search that was told everything asks for nothing more.
pub proof fn law_five_answers_end_a_search(e: GraphEventView, a: Answers)
    ensures
        told(opening(e), a).ask() is Nothing,
{
}

/// The transcript and the attendance report are found independently: whether there
/// is one does not depend on what was said of the other.
pub proof fn law_either_file_without_the_other(e: GraphEventView, a: Answers, b: Answers)
    requires
        a.meetings == b.meetings,
    ensures
        a.transcripts == b.transcripts && a.content == b.content ==> told(opening(e), a).files.0
            == told(opening(e), b).files.0,
        a.reports == b.reports && a.records == b.records ==> told(opening(e), a).files.1 == told(
            opening(e),
            b,
        ).files.1,
{
}

/// An event that is not joined anywhere, or of whose meeting Graph says nothing, has
/// no files, and a file is found only where there is one of this occurrence.
pub proof fn law_only_files_of_the_occurrence(e: GraphEventView, a: Answers)
    ensures
        e.join_url() is None || a.meetings is None ==> told(opening(e), a).files == (
            None::<Seq<char>>,
            None::<Seq<char>>,
        ),
        told(opening(e), a).files.0 is Some ==> a.transcripts is Some
            && transcript::chosen_transcript(e.start, e.end, a.transcripts->Some_0) is Some
            && a.content is Body,
        told(opening(e), a).files.1 is Some ==> a.reports is Some && transcript::chosen_report(
            e.start,
            e.end,
            a.reports->Some_0,
        ) is Some && a.records,
{
}

/// An event has its transcript exactly where it is joined somewhere, Graph knows a meeting
/// of that address, one of the meeting's transcripts is of this occurrence, and its
/// content could be read; and its report likewise. The files are called after the event.
pub proof fn law_a_file_of_the_occurrence_is_found(e: GraphEventView, a: Answers)
    ensures
        ({
            let known = e.online_meeting is Some && e.online_meeting->Some_0 is Some
                && a.meetings is Some && a.meetings->Some_0.len() > 0;
            &&& told(opening(e), a).files.0 == if known && a.transcripts is Some
                && transcript::chosen_transcript(e.start, e.end, a.transcripts->Some_0) is Some
                && a.content is Body {
                Some(transcript::transcript_name(e.start, e.subject, e.id))
            } else {
                None
            }
            &&& told(opening(e), a).files.1 == if known && a.reports is Some
                && transcript::chosen_report(e.start, e.end, a.reports->Some_0) is Some
                && a.records {
                Some(sync::attendance_name(e))
            } else {
                None
            }
        }),
{
}

/// Every question is about the meeting that the event is joined under, the first that
/// Graph names: its transcripts, the content of the one of this occurrence, its reports,
/// and the records of the one of this occurrence, in this order.
pub proof fn law_every_question_is_about_the_meeting(e: GraphEventView, a: Answers, join: Seq<char>)
    requires
        e.online_meeting == Some(Some(join)),
        a.meetings is Some,
        a.meetings->Some_0.len() > 0,
    ensures
        ({
            let id = a.meetings->Some_0[0];
            let first = opening(e);
            let second = first.told_meetings(a.meetings);
            let third = second.told_transcripts(a.transcripts);
            let fourth = third.told_content(a.content);
            let fifth = fourth.told_reports(a.reports);
            &&& first.ask() == AskView::Meetings(urls::lookup_address(join))
            &&& second.ask() == AskView::Transcripts(urls::transcripts_address(id))
            &&& a.transcripts matches Some(list) ==> (transcript::chosen_transcript(
                e.start,
                e.end,
                list,
            ) matches Some(t) ==> third.ask() == AskView::Content(
                urls::content_address(id, t.id),
            ))
            &&& third.ask() is Content || third.ask() == AskView::Reports(
                urls::reports_address(id),
            )
            &&& fourth.ask() == AskView::Reports(urls::reports_address(id))
            &&& a.reports matches Some(list) ==> (transcript::chosen_report(
                e.start,
                e.end,
                list,
            ) matches Some(r) ==> fifth.ask() == AskView::Records(
                urls::records_address(id, r.id),
            ) && fifth.stage == StageView::Records(id, r))
            &&& fifth.ask() is Records || fifth.ask() is Nothing
        }),
{
}

} // verus!
