//! The retry state machine that drives one request: classify each attempt's
//! outcome, consult the throttle resolver, and either ask the caller for
//! another attempt after a wait or settle with a final response.
//!
//! The machine itself never touches the network: the caller performs each
//! send and hands the outcome back, so every decision here is verified for
//! every outcome the network could produce. Because the selector engine may
//! hand back different texts for the same inputs, classification is a
//! relation — `classify_rel` admits every value the engine can produce —
//! and the machine's contracts quantify over it.
use crate::config::FetchConfig;
use crate::headers::HeaderEntry;
use crate::process::{build_http_error_text, build_json_error, formatted_model, http_error_text,
    is_error_status, sel_of, selector_outcome_ok, shaped_model, AttemptClass};
use crate::response::{FetchResponse, ResponseModel};
use crate::throttle::{reset_model, resolve_throttle, retry_model, wait_demanded};
use vstd::prelude::*;

verus! {

/// What one attempt produced: a transport failure with no usable reply, or a
/// reply with its status, headers and body.
pub enum AttemptOutcome {
    Transport,
    Reply { status: u16, headers: Vec<HeaderEntry>, body: String },
}

/// An attempt outcome with its texts as sequences.
pub enum OutcomeModel {
    Transport,
    Reply { status: u16, headers: Seq<(Seq<char>, Seq<char>)>, body: Seq<char> },
}

impl View for AttemptOutcome {
    type V = OutcomeModel;

    open spec fn view(&self) -> OutcomeModel {
        match self {
            AttemptOutcome::Transport => OutcomeModel::Transport,
            AttemptOutcome::Reply { status, headers, body } => OutcomeModel::Reply {
                status: *status,
                headers: headers.deep_view(),
                body: body@,
            },
        }
    }
}

impl DeepView for AttemptOutcome {
    type V = OutcomeModel;

    open spec fn deep_view(&self) -> OutcomeModel {
        self.view()
    }
}

/// Whether `c` is a classification the engine can hand back for outcome `o`:
/// a transport failure is exactly a generic client error with a blank value;
/// an HTTP 4xx/5xx keeps exactly its error descriptor when errors are
/// stored; a success without a selector is exactly the formatted payload;
/// with a selector, the engine decides, and only the shape of the outcome is
/// fixed.
pub open spec fn classify_rel(cfg: FetchConfig, o: OutcomeModel, c: AttemptClass) -> bool {
    match o {
        OutcomeModel::Transport => c == (AttemptClass {
            error: true,
            status: 400,
            value: Seq::<char>::empty(),
        }),
        OutcomeModel::Reply { status, headers, body } => {
            if is_error_status(status) {
                c == (AttemptClass {
                    error: true,
                    status,
                    value: if cfg.store_error {
                        http_error_text(status)
                    } else {
                        Seq::<char>::empty()
                    },
                })
            } else {
                &&& c.status == status
                &&& match sel_of(cfg) {
                    None => c.error == false && c.value == formatted_model(cfg.pretty, body),
                    Some(_) => selector_outcome_ok(cfg.store_error, c.value, c.error),
                }
            }
        },
    }
}

/// The headers an outcome carries; a transport failure carries none.
pub open spec fn outcome_headers(o: OutcomeModel) -> Seq<(Seq<char>, Seq<char>)> {
    match o {
        OutcomeModel::Transport => Seq::empty(),
        OutcomeModel::Reply { headers, .. } => headers,
    }
}

/// What one turn of the machine does with an outcome.
pub enum StepModel {
    Retry { retries: u8 },
    Settled { resp: ResponseModel },
}

/// One turn of the retry machine over an already-classified attempt: retry
/// exactly when the throttle resolver allows it; otherwise settle with the
/// shaped response carrying the retries spent so far.
pub open spec fn step_model(
    cfg: FetchConfig,
    retries: u8,
    h: Seq<(Seq<char>, Seq<char>)>,
    c: AttemptClass,
) -> StepModel {
    if retry_model(h, c.error, retries, cfg.max_retries, cfg.timeout_secs as int) {
        StepModel::Retry { retries: (retries + 1) as u8 }
    } else {
        StepModel::Settled {
            resp: shaped_model(cfg.store_error, cfg.include_existing_columns, c, retries),
        }
    }
}

/// What the caller should do next: send another attempt after waiting, or
/// accept the settled response.
pub enum Step {
    Retry { wait_ms: u64 },
    Settled(FetchResponse),
}

/// `c` explains the step the machine took on `o`: it is a classification
/// the engine can hand back, and the step — the new retry count, whether
/// the caller is told to retry or given the settled response, and the wait
/// bounds — follows from it.
pub open spec fn step_explained(
    cfg: FetchConfig,
    retries0: u8,
    retries1: u8,
    o: OutcomeModel,
    s: Step,
    c: AttemptClass,
) -> bool {
    &&& classify_rel(cfg, o, c)
    &&& match step_model(cfg, retries0, outcome_headers(o), c) {
        StepModel::Retry { retries } => {
            &&& retries1 == retries
            &&& (s matches Step::Retry { wait_ms } && (if wait_demanded(
                outcome_headers(o),
                c.error,
                cfg.timeout_secs as int,
            ) {
                reset_model(outcome_headers(o), c.error, cfg.timeout_secs as int) * 1000 + 10
                    <= wait_ms <= reset_model(
                    outcome_headers(o),
                    c.error,
                    cfg.timeout_secs as int,
                ) * 1000 + 29
            } else {
                wait_ms == 0
            }))
        },
        StepModel::Settled { resp } => {
            &&& retries1 == retries0
            &&& s matches Step::Settled(r) && r@ == resp
        },
    }
}

/// What `on_outcome` promises: some classification the engine can hand back
/// explains the step taken.
pub open spec fn step_taken(
    cfg: FetchConfig,
    retries0: u8,
    retries1: u8,
    o: OutcomeModel,
    s: Step,
) -> bool {
    exists|c: AttemptClass| #[trigger] step_explained(cfg, retries0, retries1, o, s, c)
}

/// The per-request retry state: how many retries have been spent.
pub struct FetchMachine {
    pub retries: u8,
}

impl FetchMachine {
    /// A fresh machine for one request, with no retries spent.
    pub fn new() -> (m: FetchMachine)
        ensures
            m.retries == 0,
    {
        FetchMachine { retries: 0 }
    }

    /// Feeds one attempt's outcome to the machine: either the retry count
    /// advances and the caller is told to wait and send again, or the
    /// machine settles. Which way it goes is explained by a classification
    /// the engine can hand back (`step_taken`); a retry is only ever taken
    /// while the budget lasts.
    pub fn on_outcome(&mut self, cfg: &FetchConfig, o: &AttemptOutcome) -> (s: Step)
        requires
            cfg.wf(),
        ensures
            step_taken(*cfg, old(self).retries, final(self).retries, o@, s),
            s matches Step::Retry { .. } ==> old(self).retries < cfg.max_retries
                && final(self).retries == old(self).retries + 1,
            s matches Step::Settled(_) ==> final(self).retries == old(self).retries,
    {
        let empty_headers: Vec<HeaderEntry> = Vec::new();
        proof {
            assert(empty_headers.deep_view() =~= Seq::<(Seq<char>, Seq<char>)>::empty());
        }
        let (error_flag, status, value, headers_ref): (bool, u16, String, &Vec<HeaderEntry>) =
            match o {
            AttemptOutcome::Transport => (true, 400u16, String::new(), &empty_headers),
            AttemptOutcome::Reply { status, headers, body } => {
                if 400 <= *status && *status <= 599 {
                    let v = if cfg.store_error {
                        build_http_error_text(*status)
                    } else {
                        String::new()
                    };
                    (true, *status, v, headers)
                } else {
                    let (v, e) = crate::process::process_payload(cfg, body.as_str());
                    (e, *status, v, headers)
                }
            },
        };
        let ghost c = AttemptClass { error: error_flag, status, value: value@ };
        proof {
            assert(classify_rel(*cfg, o@, c));
            assert(headers_ref.deep_view() == outcome_headers(o@));
        }
        let d = resolve_throttle(headers_ref, error_flag, self.retries, cfg.max_retries,
            cfg.timeout_secs);
        if d.should_retry {
            self.retries = self.retries + 1;
            let s = Step::Retry { wait_ms: d.wait_ms };
            proof {
                assert(step_explained(*cfg, old(self).retries, self.retries, o@, s, c));
            }
            s
        } else {
            let response = if error_flag {
                if cfg.store_error {
                    if cfg.include_existing_columns {
                        value
                    } else {
                        build_json_error("HTTP ERROR", value.as_str())
                    }
                } else {
                    String::new()
                }
            } else {
                value
            };
            let s = Step::Settled(
                FetchResponse { response, status_code: status, retries: self.retries },
            );
            proof {
                assert(step_explained(*cfg, old(self).retries, self.retries, o@, s, c));
            }
            s
        }
    }
}

/// Where a sequence of attempt outcomes can lead, starting with `retries`
/// already spent: each step is explained by a classification the engine can
/// hand back, and `attempts` counts the outcomes consumed until the machine
/// settles on `resp`.
pub open spec fn settle_rel(
    cfg: FetchConfig,
    retries: u8,
    outcomes: Seq<OutcomeModel>,
    resp: ResponseModel,
    attempts: int,
) -> bool
    decreases outcomes.len(),
{
    &&& outcomes.len() > 0
    &&& exists|c: AttemptClass|
        {
            &&& #[trigger] classify_rel(cfg, outcomes[0], c)
            &&& match step_model(cfg, retries, outcome_headers(outcomes[0]), c) {
                StepModel::Settled { resp: rm } => resp == rm && attempts == 1,
                StepModel::Retry { retries: nr } => settle_rel(
                    cfg,
                    nr,
                    outcomes.skip(1),
                    resp,
                    attempts - 1,
                ),
            }
        }
}

/// Runs the machine over a sequence of outcomes until it settles, handing
/// back the settled response and the number of attempts consumed.
///
/// The outcome list must be longer than the retry budget, so settling is
/// guaranteed; a caller that produces outcomes one by one uses the machine
/// directly instead.
pub fn settle_with(cfg: &FetchConfig, outcomes: &Vec<AttemptOutcome>) -> (r: (
    FetchResponse,
    usize,
))
    requires
        cfg.wf(),
        outcomes.deep_view().len() > cfg.max_retries,
    ensures
        settle_rel(*cfg, 0, outcomes.deep_view(), r.0@, r.1 as int),
        1 <= r.1 <= cfg.max_retries + 1,
{
    let ghost full = outcomes.deep_view();
    let mut m = FetchMachine::new();
    let mut i: usize = 0;
    proof {
        assert(full.skip(0) =~= full);
    }
    loop
        invariant
            cfg.wf(),
            full == outcomes.deep_view(),
            full.len() == outcomes@.len(),
            0 <= i <= full.len(),
            m.retries <= cfg.max_retries,
            m.retries == i,
            full.len() - i > cfg.max_retries - m.retries,
            forall|rm: ResponseModel, n: int|
                #[trigger] settle_rel(*cfg, m.retries, full.skip(i as int), rm, n) ==> settle_rel(
                    *cfg,
                    0,
                    full,
                    rm,
                    n + i,
                ),
        decreases full.len() - i,
    {
        proof {
            assert(i < full.len());
        }
        let ghost r0 = m.retries;
        let s = m.on_outcome(cfg, &outcomes[i]);
        let ghost sg = s;
        proof {
            assert(full.skip(i as int)[0] == full[i as int]);
            assert(outcomes[i as int]@ == full[i as int]);
        }
        match s {
            Step::Settled(resp) => {
                proof {
                    assert(step_taken(*cfg, r0, m.retries, full[i as int], sg));
                    let c = choose|c: AttemptClass|
                        #[trigger] step_explained(*cfg, r0, m.retries, full[i as int], sg, c);
                    assert(step_model(*cfg, r0, outcome_headers(full[i as int]), c)
                        matches StepModel::Settled { resp: rm } && rm == resp@);
                    assert(classify_rel(*cfg, full.skip(i as int)[0], c));
                    assert(settle_rel(*cfg, m.retries, full.skip(i as int), resp@, 1));
                    assert(settle_rel(*cfg, 0, full, resp@, 1 + i));
                }
                return (resp, i + 1);
            },
            Step::Retry { wait_ms: _ } => {
                proof {
                    assert(step_taken(*cfg, r0, m.retries, full[i as int], sg));
                    let c = choose|c: AttemptClass|
                        #[trigger] step_explained(*cfg, r0, m.retries, full[i as int], sg, c);
                    assert(step_model(*cfg, r0, outcome_headers(full[i as int]), c)
                        matches StepModel::Retry { retries } && retries == m.retries);
                    assert(full.skip(i as int).skip(1) =~= full.skip(i + 1));
                    assert forall|rm: ResponseModel, n: int|
                        #[trigger] settle_rel(
                            *cfg,
                            m.retries,
                            full.skip(i + 1),
                            rm,
                            n,
                        ) implies settle_rel(*cfg, 0, full, rm, n + i + 1) by {
                        assert(settle_rel(*cfg, m.retries, full.skip(i as int).skip(1), rm, n));
                        assert(classify_rel(*cfg, full.skip(i as int)[0], c));
                        assert(settle_rel(*cfg, r0, full.skip(i as int), rm, n + 1));
                    }
                }
                i = i + 1;
            },
        }
    }
}

/// Retry bound: against an endpoint that answers every attempt with one and
/// the same server-error status and no rate-limit headers, the engine spends
/// its whole retry budget and no more: starting with `retries` spent, any
/// run of the machine consumes exactly `max_retries - retries + 1` attempts
/// and settles on the error status with the full count recorded.
pub proof fn lemma_retry_bound_from(
    cfg: FetchConfig,
    retries: u8,
    outcomes: Seq<OutcomeModel>,
    status: u16,
    rm: ResponseModel,
    attempts: int,
)
    requires
        cfg.wf(),
        500 <= status <= 599,
        retries <= cfg.max_retries,
        forall|i: int|
            0 <= i < outcomes.len() ==> ((#[trigger] outcomes[i]) matches OutcomeModel::Reply {
                status: s2,
                headers: h2,
                body: _,
            } && s2 == status && h2 == Seq::<(Seq<char>, Seq<char>)>::empty()),
        settle_rel(cfg, retries, outcomes, rm, attempts),
    ensures
        attempts == cfg.max_retries - retries + 1,
        rm.status_code == status,
        rm.retries == cfg.max_retries,
    decreases outcomes.len(),
{
    let c = choose|c: AttemptClass|
        {
            &&& #[trigger] classify_rel(cfg, outcomes[0], c)
            &&& match step_model(cfg, retries, outcome_headers(outcomes[0]), c) {
                StepModel::Settled { resp: rm2 } => rm == rm2 && attempts == 1,
                StepModel::Retry { retries: nr } => settle_rel(
                    cfg,
                    nr,
                    outcomes.skip(1),
                    rm,
                    attempts - 1,
                ),
            }
        };
    assert(outcomes[0] matches OutcomeModel::Reply { status: s2, headers: h2, body: _ }
        && s2 == status && h2 == Seq::<(Seq<char>, Seq<char>)>::empty());
    assert(c.error && c.status == status);
    reveal_lookup_empty();
    match step_model(cfg, retries, outcome_headers(outcomes[0]), c) {
        StepModel::Settled { resp: _ } => {
            assert(retries == cfg.max_retries);
        },
        StepModel::Retry { retries: nr } => {
            assert(retries < cfg.max_retries && nr == retries + 1);
            assert forall|i: int| 0 <= i < outcomes.skip(1).len() implies ((#[trigger] outcomes.skip(
                1,
            )[i]) matches OutcomeModel::Reply { status: s2, headers: h2, body: _ } && s2 == status
                && h2 == Seq::<(Seq<char>, Seq<char>)>::empty()) by {
                assert(outcomes.skip(1)[i] == outcomes[i + 1]);
            }
            lemma_retry_bound_from(cfg, nr, outcomes.skip(1), status, rm, attempts - 1);
        },
    }
}

/// The retry bound for a fresh request: an always-failing endpoint costs
/// exactly `max_retries + 1` attempts.
pub proof fn lemma_retry_bound(
    cfg: FetchConfig,
    outcomes: Seq<OutcomeModel>,
    status: u16,
    rm: ResponseModel,
    attempts: int,
)
    requires
        cfg.wf(),
        500 <= status <= 599,
        forall|i: int|
            0 <= i < outcomes.len() ==> ((#[trigger] outcomes[i]) matches OutcomeModel::Reply {
                status: s2,
                headers: h2,
                body: _,
            } && s2 == status && h2 == Seq::<(Seq<char>, Seq<char>)>::empty()),
        settle_rel(cfg, 0, outcomes, rm, attempts),
    ensures
        attempts == cfg.max_retries + 1,
        rm.status_code == status,
        rm.retries == cfg.max_retries,
{
    lemma_retry_bound_from(cfg, 0, outcomes, status, rm, attempts);
}

/// On an empty header sequence every lookup misses.
proof fn reveal_lookup_empty()
    ensures
        forall|name: Seq<char>|
            crate::headers::lookup(Seq::<(Seq<char>, Seq<char>)>::empty(), name) is None,
{
    assert forall|name: Seq<char>|
        crate::headers::lookup(Seq::<(Seq<char>, Seq<char>)>::empty(), name) is None by {
        assert(Seq::<(Seq<char>, Seq<char>)>::empty().len() == 0);
    }
}

} // verus!
