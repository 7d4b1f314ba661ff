//! Pull orchestrator: the state machine that drives one model download,
//! from registration through streaming progress to a terminal state, and
//! the cancellation entry point that runs concurrently with it.
//!
//! The caller performs the transport work (sending the request, awaiting
//! chunks) and hands each outcome to the session as an event; the session
//! decides every transition, frames the received bytes into progress
//! records, and says which notifications to publish.

use vstd::prelude::*;
use crate::framer::{LineFramer, all_lines, complete_lines, concat_chunks, flush_lines,
    lemma_chunking_invariance, run_buffer, run_lines, tail_bytes};
use crate::registry::CancellationRegistry;
use crate::text::{lossy_decode, decode_lossy};
use crate::models::{SimpleResponse, is_success_code, http_error_message, http_status_is_success,
    format_http_error};

verus! {

/// Whether a line of text is a well-formed JSON document.
pub uninterp spec fn parses_as_json(text: Seq<char>) -> bool;

/// Relies on serde_json::from_str::<serde_json::Value>: whether a line
/// parses as JSON depends on its characters alone.
#[verifier::external_body]
fn json_line_parses(s: &str) -> (r: bool)
    ensures
        r == parses_as_json(s@),
{
    serde_json::from_str::<serde_json::Value>(s).is_ok()
}

/// Relies on uuid::Uuid::new_v4 and its hyphenated rendering: a freshly
/// generated random identifier, 36 characters long. Nothing more is
/// promised of the value.
#[verifier::external_body]
fn fresh_pull_id() -> (r: String)
    ensures
        r@.len() == 36,
{
    uuid::Uuid::new_v4().to_string()
}

/// The identifier for a new pull: the caller's, or a freshly generated one.
pub fn resolve_pull_id(requested: Option<String>) -> (r: String)
    ensures
        requested matches Some(id) ==> r == id,
{
    match requested {
        Some(id) => id,
        None => fresh_pull_id(),
    }
}

/// The server base URL for a new pull: the caller's, or the configured one.
pub fn resolve_server_url(requested: Option<String>, configured: String) -> (r: String)
    ensures
        match requested {
            Some(u) => r == u,
            None => r == configured,
        },
{
    match requested {
        Some(u) => u,
        None => configured,
    }
}

/// The payload published for one received line.
#[derive(Debug)]
pub enum ProgressPayload {
    /// The line parsed as JSON; it is forwarded verbatim.
    Parsed(String),
    /// The line did not parse; it is forwarded wrapped as a parse error,
    /// never silently dropped.
    ParseError(String),
}

/// Mathematical model of a [`ProgressPayload`].
pub enum PayloadView {
    Parsed(Seq<char>),
    ParseError(Seq<char>),
}

impl View for ProgressPayload {
    type V = PayloadView;

    open spec fn view(&self) -> PayloadView {
        match self {
            ProgressPayload::Parsed(s) => PayloadView::Parsed(s@),
            ProgressPayload::ParseError(s) => PayloadView::ParseError(s@),
        }
    }
}

/// The payload carried for a line of text: the line itself when it parses
/// as JSON, else the line wrapped as a parse error.
pub open spec fn payload_view(text: Seq<char>) -> PayloadView {
    if parses_as_json(text) {
        PayloadView::Parsed(text)
    } else {
        PayloadView::ParseError(text)
    }
}

fn make_payload(line: &[u8]) -> (p: ProgressPayload)
    ensures
        p@ == payload_view(lossy_decode(line@)),
{
    let text = decode_lossy(line);
    if json_line_parses(text.as_str()) {
        ProgressPayload::Parsed(text)
    } else {
        ProgressPayload::ParseError(text)
    }
}

/// A lifecycle notification published to the observer, fire-and-forget.
#[derive(Debug)]
pub enum Notification {
    /// The pull was registered and its request is about to be sent.
    Start { pull_id: String, name: String },
    /// One received line, parsed or wrapped.
    Progress { pull_id: String, progress: ProgressPayload },
    /// The pull stopped at the caller's request.
    Cancelled { pull_id: String },
    /// The pull failed: connection, status or transport error.
    Error { pull_id: String, error: String },
    /// The stream ended and every line was forwarded.
    Complete { pull_id: String },
}

/// Mathematical model of a [`Notification`].
pub enum NoteView {
    Start { pull_id: Seq<char>, name: Seq<char> },
    Progress { pull_id: Seq<char>, progress: PayloadView },
    Cancelled { pull_id: Seq<char> },
    Error { pull_id: Seq<char>, error: Seq<char> },
    Complete { pull_id: Seq<char> },
}

impl View for Notification {
    type V = NoteView;

    open spec fn view(&self) -> NoteView {
        match self {
            Notification::Start { pull_id, name } => (NoteView::Start {
                pull_id: pull_id@,
                name: name@,
            }),
            Notification::Progress { pull_id, progress } => (NoteView::Progress {
                pull_id: pull_id@,
                progress: progress@,
            }),
            Notification::Cancelled { pull_id } => (NoteView::Cancelled { pull_id: pull_id@ }),
            Notification::Error { pull_id, error } => (NoteView::Error {
                pull_id: pull_id@,
                error: error@,
            }),
            Notification::Complete { pull_id } => (NoteView::Complete { pull_id: pull_id@ }),
        }
    }
}

/// The identifier a notification carries.
pub open spec fn note_id(n: NoteView) -> Seq<char> {
    match n {
        NoteView::Start { pull_id, .. } => pull_id,
        NoteView::Progress { pull_id, .. } => pull_id,
        NoteView::Cancelled { pull_id } => pull_id,
        NoteView::Error { pull_id, .. } => pull_id,
        NoteView::Complete { pull_id } => pull_id,
    }
}

/// How many notifications of `notes` satisfy `f`.
pub open spec fn count_where(notes: Seq<NoteView>, f: spec_fn(NoteView) -> bool) -> nat
    decreases notes.len(),
{
    if notes.len() == 0 {
        0
    } else {
        count_where(notes.drop_last(), f) + (if f(notes.last()) {
            1nat
        } else {
            0nat
        })
    }
}

/// The predicate picking out pull-cancelled notifications.
pub open spec fn is_cancel_note() -> spec_fn(NoteView) -> bool {
    |n: NoteView| n is Cancelled
}

/// The predicate picking out pull-error notifications.
pub open spec fn is_error_note() -> spec_fn(NoteView) -> bool {
    |n: NoteView| n is Error
}

/// The predicate picking out pull-complete notifications.
pub open spec fn is_complete_note() -> spec_fn(NoteView) -> bool {
    |n: NoteView| n is Complete
}

proof fn lemma_count_push(notes: Seq<NoteView>, f: spec_fn(NoteView) -> bool, n: NoteView)
    ensures
        count_where(notes.push(n), f) == count_where(notes, f) + (if f(n) {
            1nat
        } else {
            0nat
        }),
{
    assert(notes.push(n).drop_last() =~= notes);
    assert(notes.push(n).last() == n);
}

proof fn lemma_count_add(a: Seq<NoteView>, b: Seq<NoteView>, f: spec_fn(NoteView) -> bool)
    ensures
        count_where(a + b, f) == count_where(a, f) + count_where(b, f),
    decreases b.len(),
{
    if b.len() == 0 {
        assert(a + b =~= a);
    } else {
        assert((a + b).drop_last() =~= a + b.drop_last());
        assert((a + b).last() == b.last());
        lemma_count_add(a, b.drop_last(), f);
    }
}

/// The progress notifications published for a sequence of framed lines.
pub open spec fn progress_views(id: Seq<char>, lines: Seq<Seq<u8>>) -> Seq<NoteView> {
    lines.map_values(
        |l: Seq<u8>| (NoteView::Progress { pull_id: id, progress: payload_view(lossy_decode(l)) }),
    )
}

proof fn lemma_progress_views_facts(id: Seq<char>, lines: Seq<Seq<u8>>)
    ensures
        count_where(progress_views(id, lines), is_cancel_note()) == 0,
        count_where(progress_views(id, lines), is_error_note()) == 0,
        count_where(progress_views(id, lines), is_complete_note()) == 0,
        forall|i: int|
            0 <= i < lines.len() ==> note_id(#[trigger] progress_views(id, lines)[i]) == id,
    decreases lines.len(),
{
    if lines.len() == 0 {
    } else {
        lemma_progress_views_facts(id, lines.drop_last());
        assert(progress_views(id, lines).drop_last() =~= progress_views(id, lines.drop_last()));
        assert(progress_views(id, lines).last() == (NoteView::Progress {
            pull_id: id,
            progress: payload_view(lossy_decode(lines.last())),
        }));
    }
}

/// One pull's end-to-end state: Starting, then Streaming, then exactly one
/// of Completed, Cancelled or Failed, each reached at most once.
#[derive(Debug, Clone, Copy, PartialEq, Eq, Structural)]
pub enum PullState {
    Starting,
    Streaming,
    Completed,
    Cancelled,
    Failed,
}

/// Whether a pull state admits no further transition.
pub open spec fn is_terminal(s: PullState) -> bool {
    s is Completed || s is Cancelled || s is Failed
}

/// One pull operation: its identifier, its state, its line buffer, and the
/// history of every notification it has asked the caller to publish.
pub struct PullSession {
    pull_id: String,
    state: PullState,
    framer: LineFramer,
    history: Ghost<Seq<NoteView>>,
}

impl PullSession {
    /// This pull's identifier.
    pub closed spec fn id(&self) -> Seq<char> {
        self.pull_id@
    }

    /// Where the pull stands in its lifecycle.
    pub closed spec fn phase(&self) -> PullState {
        self.state
    }

    /// Bytes received but not yet framed into a line.
    pub closed spec fn buffered(&self) -> Seq<u8> {
        self.framer@
    }

    /// Every notification this session has asked the caller to publish,
    /// oldest first.
    pub closed spec fn published(&self) -> Seq<NoteView> {
        self.history@
    }

    /// Each notification carries this pull's identifier, and the history
    /// holds exactly one terminal notification once a terminal state is
    /// reached, of the matching kind, and none before.
    pub open spec fn wf(&self) -> bool {
        &&& (forall|i: int|
            0 <= i < self.published().len() ==> note_id(#[trigger] self.published()[i])
                == self.id())
        &&& !is_terminal(self.phase()) ==> {
            &&& count_where(self.published(), is_cancel_note()) == 0
            &&& count_where(self.published(), is_error_note()) == 0
            &&& count_where(self.published(), is_complete_note()) == 0
        }
        &&& self.phase() is Cancelled ==> {
            &&& count_where(self.published(), is_cancel_note()) == 1
            &&& count_where(self.published(), is_error_note()) == 0
            &&& count_where(self.published(), is_complete_note()) == 0
        }
        &&& self.phase() is Failed ==> {
            &&& count_where(self.published(), is_cancel_note()) == 0
            &&& count_where(self.published(), is_error_note()) == 1
            &&& count_where(self.published(), is_complete_note()) == 0
        }
        &&& self.phase() is Completed ==> {
            &&& count_where(self.published(), is_cancel_note()) == 0
            &&& count_where(self.published(), is_error_note()) == 0
            &&& count_where(self.published(), is_complete_note()) == 1
        }
    }

    /// Register the pull and produce the pull-start notification. Fails,
    /// changing nothing, if the identifier is already active: two
    /// concurrent pulls never share a registry entry.
    pub fn begin(registry: &mut CancellationRegistry, pull_id: String, name: String) -> (r: Result<
        (PullSession, Notification),
        SimpleResponse,
    >)
        requires
            old(registry).wf(),
        ensures
            final(registry).wf(),
            match r {
                Ok(sn) => {
                    &&& !old(registry)@.contains_key(pull_id@)
                    &&& final(registry)@ == old(registry)@.insert(pull_id@, false)
                    &&& sn.0.wf()
                    &&& sn.0.id() == pull_id@
                    &&& sn.0.phase() is Starting
                    &&& sn.0.buffered() == Seq::<u8>::empty()
                    &&& sn.1@ == (NoteView::Start { pull_id: pull_id@, name: name@ })
                    &&& sn.0.published() == seq![sn.1@]
                },
                Err(resp) => {
                    &&& old(registry)@.contains_key(pull_id@)
                    &&& *final(registry) == *old(registry)
                    &&& resp.success == false
                    &&& resp.error matches Some(e) && e@ == "Pull ID already active"@
                },
            },
    {
        let fresh = registry.register(&pull_id);
        if !fresh {
            return Err(
                SimpleResponse { success: false, error: Some("Pull ID already active".to_owned()) },
            );
        }
        let note = Notification::Start { pull_id: pull_id.clone(), name };
        let ghost history = seq![note@];
        proof {
            assert(history.drop_last() =~= Seq::<NoteView>::empty());
            assert(history.last() == note@);
            assert(count_where(Seq::<NoteView>::empty(), is_cancel_note()) == 0);
            assert(count_where(Seq::<NoteView>::empty(), is_error_note()) == 0);
            assert(count_where(Seq::<NoteView>::empty(), is_complete_note()) == 0);
            assert(count_where(history, is_cancel_note()) == 0);
            assert(count_where(history, is_error_note()) == 0);
            assert(count_where(history, is_complete_note()) == 0);
            assert(forall|i: int| 0 <= i < history.len() ==> note_id(#[trigger] history[i])
                == pull_id@);
        }
        let session = PullSession {
            pull_id,
            state: PullState::Starting,
            framer: LineFramer::new(),
            history: Ghost(history),
        };
        Ok((session, note))
    }

    /// Decide on the status of the initial response: a success status moves
    /// the pull to Streaming; any other status fails the pull before any
    /// byte is streamed, unregisters it and reports the status line — the
    /// code and the reason phrase the transport gives beside it.
    pub fn on_response_status(
        &mut self,
        registry: &mut CancellationRegistry,
        code: u16,
        reason: &str,
    ) -> (r: Option<(Notification, SimpleResponse)>)
        requires
            old(self).wf(),
            old(self).phase() is Starting,
            old(registry).wf(),
        ensures
            final(self).wf(),
            final(registry).wf(),
            final(self).id() == old(self).id(),
            final(self).buffered() == old(self).buffered(),
            is_success_code(code) ==> {
                &&& r is None
                &&& final(self).phase() is Streaming
                &&& final(self).published() == old(self).published()
                &&& *final(registry) == *old(registry)
            },
            !is_success_code(code) ==> match r {
                Some(nr) => {
                    &&& final(self).phase() is Failed
                    &&& final(registry)@ == old(registry)@.remove(old(self).id())
                    &&& !final(registry)@.contains_key(old(self).id())
                    &&& nr.0@ == (NoteView::Error {
                        pull_id: old(self).id(),
                        error: http_error_message(code, reason@),
                    })
                    &&& nr.1.success == false
                    &&& nr.1.error matches Some(e) && e@ == http_error_message(code, reason@)
                    &&& final(self).published() == old(self).published().push(nr.0@)
                },
                None => false,
            },
    {
        if http_status_is_success(code) {
            self.state = PullState::Streaming;
            None
        } else {
            let message = format_http_error(code, reason);
            let note = Notification::Error {
                pull_id: self.pull_id.clone(),
                error: message.clone(),
            };
            registry.unregister(&self.pull_id);
            self.state = PullState::Failed;
            proof {
                lemma_count_push(self.history@, is_cancel_note(), note@);
                lemma_count_push(self.history@, is_error_note(), note@);
                lemma_count_push(self.history@, is_complete_note(), note@);
            }
            self.history = Ghost(self.history@.push(note@));
            Some((note, SimpleResponse { success: false, error: Some(message) }))
        }
    }

    /// Consume one received chunk: buffer its bytes, frame every complete
    /// line, and produce one progress notification per line, parsed or
    /// wrapped, in the order the lines were received.
    pub fn on_chunk(&mut self, chunk: &[u8]) -> (notes: Vec<Notification>)
        requires
            old(self).wf(),
            old(self).phase() is Streaming,
        ensures
            final(self).wf(),
            final(self).phase() is Streaming,
            final(self).id() == old(self).id(),
            final(self).buffered() == tail_bytes(old(self).buffered() + chunk@),
            notes@.map_values(|n: Notification| n@) == progress_views(
                old(self).id(),
                complete_lines(old(self).buffered() + chunk@),
            ),
            final(self).published() == old(self).published() + notes@.map_values(
                |n: Notification| n@,
            ),
    {
        self.framer.feed(chunk);
        let lines = self.framer.drain();
        let ghost all = lines@.map_values(|l: Vec<u8>| l@);
        let mut notes: Vec<Notification> = Vec::new();
        let n = lines.len();
        let mut i: usize = 0;
        proof {
            assert(notes@.map_values(|x: Notification| x@) =~= progress_views(
                self.pull_id@,
                all.take(0),
            ));
        }
        while i < n
            invariant
                0 <= i <= n,
                n == lines@.len(),
                all == lines@.map_values(|l: Vec<u8>| l@),
                notes@.map_values(|x: Notification| x@) == progress_views(
                    self.pull_id@,
                    all.take(i as int),
                ),
            decreases n - i,
        {
            let payload = make_payload(lines[i].as_slice());
            let note = Notification::Progress {
                pull_id: self.pull_id.clone(),
                progress: payload,
            };
            let ghost before = notes@;
            notes.push(note);
            proof {
                assert(all.take(i + 1).drop_last() =~= all.take(i as int));
                assert(all.take(i + 1).last() == all[i as int]);
                assert(all[i as int] == lines@[i as int]@);
                assert(progress_views(self.pull_id@, all.take(i + 1)) =~= progress_views(
                    self.pull_id@,
                    all.take(i as int),
                ).push(note@));
                assert(notes@.map_values(|x: Notification| x@) =~= before.map_values(
                    |x: Notification| x@,
                ).push(note@));
            }
            i = i + 1;
        }
        proof {
            assert(all.take(n as int) =~= all);
            lemma_progress_views_facts(self.pull_id@, all);
            lemma_count_add(self.history@, progress_views(self.pull_id@, all), is_cancel_note());
            lemma_count_add(self.history@, progress_views(self.pull_id@, all), is_error_note());
            lemma_count_add(self.history@, progress_views(self.pull_id@, all), is_complete_note());
        }
        self.history = Ghost(self.history@ + notes@.map_values(|x: Notification| x@));
        notes
    }

    /// Observe a requested cancellation at a chunk boundary: the pull moves
    /// to Cancelled, its registry entry is removed, exactly one
    /// pull-cancelled notification is produced, and the caller's result
    /// names the user-initiated cancellation.
    pub fn on_cancelled(&mut self, registry: &mut CancellationRegistry) -> (r: (
        Notification,
        SimpleResponse,
    ))
        requires
            old(self).wf(),
            old(self).phase() is Streaming,
            old(registry).wf(),
        ensures
            final(self).wf(),
            final(registry).wf(),
            final(self).id() == old(self).id(),
            final(self).phase() is Cancelled,
            final(registry)@ == old(registry)@.remove(old(self).id()),
            !final(registry)@.contains_key(old(self).id()),
            r.0@ == (NoteView::Cancelled { pull_id: old(self).id() }),
            r.1.success == false,
            r.1.error matches Some(e) && e@ == "Cancelled by user"@,
            final(self).published() == old(self).published().push(r.0@),
    {
        let note = Notification::Cancelled { pull_id: self.pull_id.clone() };
        registry.unregister(&self.pull_id);
        self.state = PullState::Cancelled;
        proof {
            lemma_count_push(self.history@, is_cancel_note(), note@);
            lemma_count_push(self.history@, is_error_note(), note@);
            lemma_count_push(self.history@, is_complete_note(), note@);
        }
        self.history = Ghost(self.history@.push(note@));
        (note, SimpleResponse { success: false, error: Some("Cancelled by user".to_owned()) })
    }

    /// Record a transport-level failure, before any byte was streamed (the
    /// request could not be sent) or while streaming (a chunk read failed):
    /// the pull moves to Failed, its registry entry is removed, and the
    /// transport's message is reported both as a notification and in the
    /// caller's result.
    pub fn on_transport_error(
        &mut self,
        registry: &mut CancellationRegistry,
        message: String,
    ) -> (r: (Notification, SimpleResponse))
        requires
            old(self).wf(),
            old(self).phase() is Starting || old(self).phase() is Streaming,
            old(registry).wf(),
        ensures
            final(self).wf(),
            final(registry).wf(),
            final(self).id() == old(self).id(),
            final(self).phase() is Failed,
            final(registry)@ == old(registry)@.remove(old(self).id()),
            !final(registry)@.contains_key(old(self).id()),
            r.0@ == (NoteView::Error { pull_id: old(self).id(), error: message@ }),
            r.1.success == false,
            r.1.error matches Some(e) && e@ == message@,
            final(self).published() == old(self).published().push(r.0@),
    {
        let note = Notification::Error {
            pull_id: self.pull_id.clone(),
            error: message.clone(),
        };
        registry.unregister(&self.pull_id);
        self.state = PullState::Failed;
        proof {
            lemma_count_push(self.history@, is_cancel_note(), note@);
            lemma_count_push(self.history@, is_error_note(), note@);
            lemma_count_push(self.history@, is_complete_note(), note@);
        }
        self.history = Ghost(self.history@.push(note@));
        (note, SimpleResponse { success: false, error: Some(message) })
    }

    /// The stream ended: flush the unterminated remainder as a trailing
    /// progress notification if one exists, move to Completed, remove the
    /// registry entry, and report success to the caller.
    pub fn on_stream_end(&mut self, registry: &mut CancellationRegistry) -> (r: (
        Vec<Notification>,
        SimpleResponse,
    ))
        requires
            old(self).wf(),
            old(self).phase() is Streaming,
            old(registry).wf(),
        ensures
            final(self).wf(),
            final(registry).wf(),
            final(self).id() == old(self).id(),
            final(self).phase() is Completed,
            final(self).buffered() == Seq::<u8>::empty(),
            final(registry)@ == old(registry)@.remove(old(self).id()),
            !final(registry)@.contains_key(old(self).id()),
            r.0@.map_values(|n: Notification| n@) == progress_views(
                old(self).id(),
                flush_lines(old(self).buffered()),
            ).push((NoteView::Complete { pull_id: old(self).id() })),
            r.1.success == true,
            r.1.error is None,
            final(self).published() == old(self).published() + r.0@.map_values(
                |n: Notification| n@,
            ),
    {
        let mut notes: Vec<Notification> = Vec::new();
        let remainder = self.framer.flush_remainder();
        match remainder {
            Some(line) => {
                let payload = make_payload(line.as_slice());
                notes.push(Notification::Progress {
                    pull_id: self.pull_id.clone(),
                    progress: payload,
                });
            },
            None => {},
        }
        let done = Notification::Complete { pull_id: self.pull_id.clone() };
        notes.push(done);
        registry.unregister(&self.pull_id);
        self.state = PullState::Completed;
        let ghost emitted = notes@.map_values(|n: Notification| n@);
        proof {
            assert(emitted =~= progress_views(old(self).id(), flush_lines(old(self).buffered()))
                .push((NoteView::Complete { pull_id: old(self).id() })));
            lemma_progress_views_facts(old(self).id(), flush_lines(old(self).buffered()));
            lemma_count_add(
                self.history@,
                progress_views(old(self).id(), flush_lines(old(self).buffered())),
                is_cancel_note(),
            );
            lemma_count_add(
                self.history@,
                progress_views(old(self).id(), flush_lines(old(self).buffered())),
                is_error_note(),
            );
            lemma_count_add(
                self.history@,
                progress_views(old(self).id(), flush_lines(old(self).buffered())),
                is_complete_note(),
            );
            lemma_count_push(
                self.history@ + progress_views(old(self).id(), flush_lines(old(self).buffered())),
                is_cancel_note(),
                (NoteView::Complete { pull_id: old(self).id() }),
            );
            lemma_count_push(
                self.history@ + progress_views(old(self).id(), flush_lines(old(self).buffered())),
                is_error_note(),
                (NoteView::Complete { pull_id: old(self).id() }),
            );
            lemma_count_push(
                self.history@ + progress_views(old(self).id(), flush_lines(old(self).buffered())),
                is_complete_note(),
                (NoteView::Complete { pull_id: old(self).id() }),
            );
            assert(self.history@ + emitted =~= (self.history@ + progress_views(
                old(self).id(),
                flush_lines(old(self).buffered()),
            )).push((NoteView::Complete { pull_id: old(self).id() })));
        }
        self.history = Ghost(self.history@ + emitted);
        (notes, SimpleResponse { success: true, error: None })
    }
}

/// Request cancellation of an active pull by identifier: sets its flag so
/// the streaming loop observes it at the next chunk boundary. An unknown
/// identifier is a normal, reportable not-found outcome, never a fault.
pub fn cancel_pull(registry: &mut CancellationRegistry, pull_id: &String) -> (r: SimpleResponse)
    requires
        old(registry).wf(),
    ensures
        final(registry).wf(),
        r.success == old(registry)@.contains_key(pull_id@),
        old(registry)@.contains_key(pull_id@) ==> {
            &&& final(registry)@ == old(registry)@.insert(pull_id@, true)
            &&& r.error is None
        },
        !old(registry)@.contains_key(pull_id@) ==> {
            &&& *final(registry) == *old(registry)
            &&& r.error matches Some(e) && e@ == "Pull ID not found"@
        },
{
    let found = registry.request_cancel(pull_id);
    if found {
        SimpleResponse { success: true, error: None }
    } else {
        SimpleResponse { success: false, error: Some("Pull ID not found".to_owned()) }
    }
}

/// Law: however the received bytes were split into chunks, the progress
/// notifications published for the chunks in order — draining after each
/// chunk and flushing the remainder at the end — are exactly one per
/// trimmed, non-empty, newline-delimited segment of the whole stream, in
/// the order the segments were received.
pub proof fn lemma_one_progress_notification_per_segment(id: Seq<char>, chunks: Seq<Seq<u8>>)
    ensures
        progress_views(id, run_lines(chunks)) + progress_views(id, flush_lines(run_buffer(chunks)))
            == progress_views(id, all_lines(concat_chunks(chunks))),
{
    lemma_chunking_invariance(chunks);
    assert(progress_views(id, run_lines(chunks)) + progress_views(
        id,
        flush_lines(run_buffer(chunks)),
    ) =~= progress_views(id, all_lines(concat_chunks(chunks))));
}

/// Law: a well-formed session that reached a terminal state has published
/// exactly one terminal notification, of the matching kind: one
/// pull-cancelled after cancellation, one pull-error after failure, one
/// pull-complete after completion, and none of the other two.
pub proof fn lemma_one_terminal_notification(s: &PullSession)
    requires
        s.wf(),
        is_terminal(s.phase()),
    ensures
        s.phase() is Cancelled ==> count_where(s.published(), is_cancel_note()) == 1,
        s.phase() is Failed ==> count_where(s.published(), is_error_note()) == 1,
        s.phase() is Completed ==> count_where(s.published(), is_complete_note()) == 1,
        count_where(s.published(), is_cancel_note()) + count_where(s.published(), is_error_note())
            + count_where(s.published(), is_complete_note()) == 1,
{
}

/// Law: every notification a well-formed session has published carries
/// that session's pull identifier.
pub proof fn lemma_notifications_carry_id(s: &PullSession, i: int)
    requires
        s.wf(),
        0 <= i < s.published().len(),
    ensures
        note_id(s.published()[i]) == s.id(),
{
}

} // verus!
