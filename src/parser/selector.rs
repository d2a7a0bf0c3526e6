use vstd::prelude::*;
use crate::context::Selector;
use crate::model::{lemma_steps_push, step_model, steps_model, StepM};
use crate::parser::scan::{lemma_span_bounds, number, number_at, span, span_of, text_of, CharKind};
use crate::parser::{ParseFailure, Rule};
use crate::text::chars_of;

verus! {

/// `[n]` at `p`: the index and where it ends.
pub open spec fn bracket_at(s: Seq<char>, p: int) -> Option<(usize, int)> {
    if 0 <= p < s.len() && s[p] == '[' {
        match number_at(s, p + 1) {
            Some((n, q)) => if q < s.len() && s[q] == ']' {
                Some((n, q + 1))
            } else {
                None
            },
            None => None,
        }
    } else {
        None
    }
}

/// A key at `p`: a run of letters and digits.
pub open spec fn key_at(s: Seq<char>, p: int) -> Option<(StepM, int)> {
    let q = span(s, p, CharKind::Alnum);
    if q > p {
        Some((StepM::Key(s.subrange(p, q)), q))
    } else {
        None
    }
}

/// The first step of a selector at `p`: a number, a bracketed number, or a key.
pub open spec fn first_step(s: Seq<char>, p: int) -> Option<(StepM, int)> {
    match number_at(s, p) {
        Some((n, q)) => Some((StepM::Index(n), q)),
        None => match bracket_at(s, p) {
            Some((n, q)) => Some((StepM::Index(n), q)),
            None => key_at(s, p),
        },
    }
}

/// A later step at `p`: `.` and a number, a bracketed number, or `.` and a key.
pub open spec fn next_step(s: Seq<char>, p: int) -> Option<(StepM, int)> {
    let dot = 0 <= p < s.len() && s[p] == '.';
    if dot && number_at(s, p + 1) is Some {
        Some((StepM::Index(number_at(s, p + 1)->Some_0.0), number_at(s, p + 1)->Some_0.1))
    } else if bracket_at(s, p) is Some {
        Some((StepM::Index(bracket_at(s, p)->Some_0.0), bracket_at(s, p)->Some_0.1))
    } else if dot {
        key_at(s, p + 1)
    } else {
        None
    }
}

/// The later steps from `p` on, and where they end.
pub open spec fn steps_from(s: Seq<char>, p: int) -> (Seq<StepM>, int)
    decreases s.len() - p,
{
    match next_step(s, p) {
        Some((st, q)) => if p < q <= s.len() {
            let rest = steps_from(s, q);
            (seq![st] + rest.0, rest.1)
        } else {
            (Seq::empty(), p)
        },
        None => (Seq::empty(), p),
    }
}

/// The selector at `p` and where it ends; none where no step starts there.
pub open spec fn selectors_at(s: Seq<char>, p: int) -> Option<(Seq<StepM>, int)> {
    match first_step(s, p) {
        Some((st, q)) => {
            let rest = steps_from(s, q);
            Some((seq![st] + rest.0, rest.1))
        },
        None => None,
    }
}

fn bracket(s: &Vec<char>, p: usize) -> (r: Option<(usize, usize)>)
    requires
        p <= s@.len(),
    ensures
        match r {
            Some((n, q)) => bracket_at(s@, p as int) == Some((n, q as int)) && q <= s@.len(),
            None => bracket_at(s@, p as int) is None,
        },
{
    if p < s.len() && s[p] == '[' {
        match number(s, p + 1) {
            Some((n, q)) => {
                proof {
                    lemma_span_bounds(s@, p + 1, CharKind::Digit);
                }
                if q < s.len() && s[q] == ']' {
                    Some((n, q + 1))
                } else {
                    None
                }
            },
            None => None,
        }
    } else {
        None
    }
}

fn key(s: &Vec<char>, p: usize) -> (r: Option<(Selector, usize)>)
    requires
        p <= s@.len(),
    ensures
        match r {
            Some((st, q)) => key_at(s@, p as int) == Some((step_model(st), q as int)) && q <= s@.len(),
            None => key_at(s@, p as int) is None,
        },
{
    let q = span_of(s, p, CharKind::Alnum);
    if q > p {
        Some((Selector::Key(text_of(s, p, q)), q))
    } else {
        None
    }
}

fn first(s: &Vec<char>, p: usize) -> (r: Option<(Selector, usize)>)
    requires
        p <= s@.len(),
    ensures
        match r {
            Some((st, q)) => first_step(s@, p as int) == Some((step_model(st), q as int)) && q <= s@.len(),
            None => first_step(s@, p as int) is None,
        },
{
    match number(s, p) {
        Some((n, q)) => {
            proof {
                lemma_span_bounds(s@, p as int, CharKind::Digit);
            }
            Some((Selector::Index(n), q))
        },
        None => match bracket(s, p) {
            Some((n, q)) => Some((Selector::Index(n), q)),
            None => key(s, p),
        },
    }
}

fn next(s: &Vec<char>, p: usize) -> (r: Option<(Selector, usize)>)
    requires
        p <= s@.len(),
    ensures
        match r {
            Some((st, q)) => next_step(s@, p as int) == Some((step_model(st), q as int)) && q <= s@.len(),
            None => next_step(s@, p as int) is None,
        },
{
    let dot = p < s.len() && s[p] == '.';
    if dot {
        if let Some((n, q)) = number(s, p + 1) {
            proof {
                lemma_span_bounds(s@, p + 1, CharKind::Digit);
            }
            return Some((Selector::Index(n), q));
        }
    }
    if let Some((n, q)) = bracket(s, p) {
        return Some((Selector::Index(n), q));
    }
    if dot {
        key(s, p + 1)
    } else {
        None
    }
}

/// The selector at `p` and where it ends.
pub fn selectors(s: &Vec<char>, p: usize) -> (r: Option<(Vec<Selector>, usize)>)
    requires
        p <= s@.len(),
    ensures
        match r {
            Some((v, q)) => selectors_at(s@, p as int) == Some((steps_model(v@), q as int)) && q <= s@.len(),
            None => selectors_at(s@, p as int) is None,
        },
{
    match first(s, p) {
        None => None,
        Some((st, q0)) => {
            let mut v: Vec<Selector> = Vec::new();
            v.push(st);
            let ghost goal = steps_from(s@, q0 as int);
            let mut q = q0;
            assert(steps_model(v@) =~= seq![step_model(st)]);
            loop
                invariant
                    q <= s@.len(),
                    steps_model(v@) + steps_from(s@, q as int).0 == seq![step_model(st)] + goal.0,
                    steps_from(s@, q as int).1 == goal.1,
                ensures
                    q <= s@.len(),
                    steps_model(v@) == seq![step_model(st)] + goal.0,
                    q == goal.1,
                decreases s@.len() - q,
            {
                match next(s, q) {
                    Some((t, e)) => {
                        if q < e {
                            proof {
                                lemma_steps_push(v@, t);
                                let rest = steps_from(s@, e as int);
                                assert(steps_model(v@).push(step_model(t)) + rest.0 =~= steps_model(v@) + (
                                seq![step_model(t)] + rest.0));
                            }
                            v.push(t);
                            q = e;
                        } else {
                            proof {
                                assert(steps_model(v@) + Seq::<StepM>::empty() =~= steps_model(v@));
                            }
                            break;
                        }
                    },
                    None => {
                        proof {
                            assert(steps_model(v@) + Seq::<StepM>::empty() =~= steps_model(v@));
                        }
                        break;
                    },
                }
            }
            Some((v, q))
        },
    }
}

/// Parses a selector at the start of `input`: its steps and the text left
/// after it.
pub fn parse(input: &str) -> (r: Result<(String, Vec<Selector>), ParseFailure>)
    ensures
        match selectors_at(input@, 0) {
            Some((steps, q)) => r matches Ok((rest, v)) && steps_model(v@) == steps && rest@
                == input@.subrange(q, input@.len() as int),
            None => r == Err::<(String, Vec<Selector>), ParseFailure>(
                ParseFailure { position: 0, rule: Rule::Selector },
            ),
        },
{
    let s = chars_of(input);
    match selectors(&s, 0) {
        Some((v, q)) => Ok((text_of(&s, q, s.len()), v)),
        None => Err(ParseFailure { position: 0, rule: Rule::Selector }),
    }
}

} // verus!
