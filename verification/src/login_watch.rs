//! Waits for a browser login to complete: what to do at each look at the page,
//! until the student portal is reached.

use crate::browser_auth::LoginPage;
use vstd::prelude::*;

verus! {

/// How many seconds a login may take.
pub const LOGIN_TIMEOUT_SECS: u64 = 300;

/// How many seconds pass before the next look when no code was entered.
pub const EMPTY_CODE_PAUSE_SECS: u64 = 2;

/// What has been done about the login so far.
#[derive(Debug, Clone, Copy, PartialEq, Eq, Structural)]
pub struct LoginWatch {
    pub captcha_announced: bool,
    pub two_factor_announced: bool,
    pub two_factor_triggered: bool,
    pub two_factor_submitted: bool,
}

/// What a look at the page found.
#[derive(Debug, Clone, Copy, PartialEq, Eq, Structural)]
pub enum PageRead {
    /// The page could not be read: it was being replaced.
    Unreadable,
    /// The page shows this.
    Shows(LoginPage),
}

/// What to do at one look at the page, in this order.
#[derive(Debug, Clone, Copy, PartialEq, Eq, Structural)]
pub struct LoginChores {
    /// Keep the page and say that it asks for a second factor.
    pub announce_two_factor: bool,
    /// Have the page send the verification code.
    pub request_code: bool,
    /// Ask for the code and enter it.
    pub prompt_for_code: bool,
    /// Say that nobody is there to enter the code.
    pub note_unattended: bool,
    /// Say that the page shows a captcha.
    pub announce_captcha: bool,
}

/// What follows from one look at the page.
#[derive(Debug, Clone, Copy, PartialEq, Eq, Structural)]
pub enum LoginStep {
    /// The student portal is reached.
    Done,
    /// The page says that the username or the password is wrong.
    Rejected,
    /// The login goes on once the chores are done.
    Wait(LoginChores),
}

/// What came of asking for the code.
#[derive(Debug, Clone, Copy, PartialEq, Eq, Structural)]
pub enum PromptOutcome {
    /// A code was typed and the page submitted it.
    Submitted,
    /// Nothing was typed.
    Empty,
    /// A code was typed, and the page did not submit it.
    Failed,
}

/// What follows from a look and from the time that the login has taken.
#[derive(Debug, Clone, Copy, PartialEq, Eq, Structural)]
pub enum LoginTurn {
    /// The student portal is reached.
    Done,
    /// The page says that the username or the password is wrong.
    Rejected,
    /// The login has taken too long.
    GiveUp,
    /// The page is looked at again.
    Again,
}

/// The login is over at this look.
pub open spec fn ends_login(read: PageRead) -> bool {
    match read {
        PageRead::Unreadable => false,
        PageRead::Shows(page) => page.on_portal || page.rejected,
    }
}

/// What to do at this look. At a page that could not be read there is nothing to do.
pub open spec fn chores_of(watch: LoginWatch, read: PageRead, interactive: bool) -> LoginChores {
    let (multifactor, captcha) = match read {
        PageRead::Unreadable => (false, false),
        PageRead::Shows(page) => (page.multifactor, page.captcha),
    };
    LoginChores {
        announce_two_factor: multifactor && !watch.two_factor_announced,
        request_code: multifactor && !watch.two_factor_triggered,
        prompt_for_code: multifactor && !watch.two_factor_submitted && interactive,
        note_unattended: multifactor && !watch.two_factor_submitted && !interactive,
        announce_captcha: captcha && !watch.captcha_announced,
    }
}

/// What follows from this look.
pub open spec fn step_of(watch: LoginWatch, read: PageRead, interactive: bool) -> LoginStep {
    match read {
        PageRead::Shows(page) if page.on_portal => LoginStep::Done,
        PageRead::Shows(page) if page.rejected => LoginStep::Rejected,
        _ => LoginStep::Wait(chores_of(watch, read, interactive)),
    }
}

/// What follows from a step, once its chores are done, when the login has taken
/// `elapsed_secs` seconds.
pub open spec fn turn_of(step: LoginStep, elapsed_secs: int) -> LoginTurn {
    match step {
        LoginStep::Done => LoginTurn::Done,
        LoginStep::Rejected => LoginTurn::Rejected,
        LoginStep::Wait(_) => if elapsed_secs >= LOGIN_TIMEOUT_SECS {
            LoginTurn::GiveUp
        } else {
            LoginTurn::Again
        },
    }
}

/// What has been done once the chores of this look are done, the outcome of a
/// prompt left aside.
pub open spec fn after_look(watch: LoginWatch, read: PageRead, interactive: bool) -> LoginWatch {
    match read {
        PageRead::Shows(page) if !ends_login(read) => LoginWatch {
            captcha_announced: watch.captcha_announced || page.captcha,
            two_factor_announced: watch.two_factor_announced || page.multifactor,
            two_factor_triggered: watch.two_factor_triggered || page.multifactor,
            two_factor_submitted: watch.two_factor_submitted || (page.multifactor && !interactive),
        },
        _ => watch,
    }
}

/// What has been done once a prompt came out as `outcome`.
pub open spec fn after_prompt(watch: LoginWatch, outcome: PromptOutcome) -> LoginWatch {
    LoginWatch {
        two_factor_submitted: watch.two_factor_submitted || outcome == PromptOutcome::Submitted,
        ..watch
    }
}

impl LoginWatch {
    /// Nothing has been done.
    pub fn new() -> (r: LoginWatch)
        ensures
            r == (LoginWatch {
                captcha_announced: false,
                two_factor_announced: false,
                two_factor_triggered: false,
                two_factor_submitted: false,
            }),
    {
        LoginWatch {
            captcha_announced: false,
            two_factor_announced: false,
            two_factor_triggered: false,
            two_factor_submitted: false,
        }
    }

    /// Looks at the page and says what follows. With nobody there to enter a code,
    /// the code counts as submitted once that was noted.
    pub fn look(&mut self, read: PageRead, interactive: bool) -> (r: LoginStep)
        ensures
            r == step_of(*old(self), read, interactive),
            *final(self) == after_look(*old(self), read, interactive),
    {
        let mut chores = LoginChores {
            announce_two_factor: false,
            request_code: false,
            prompt_for_code: false,
            note_unattended: false,
            announce_captcha: false,
        };
        let page: LoginPage = match read {
            PageRead::Unreadable => return LoginStep::Wait(chores),
            PageRead::Shows(page) => page,
        };
        if page.on_portal {
            return LoginStep::Done;
        }
        if page.rejected {
            return LoginStep::Rejected;
        }
        if page.multifactor {
            if !self.two_factor_announced {
                chores.announce_two_factor = true;
                self.two_factor_announced = true;
            }
            if !self.two_factor_triggered {
                chores.request_code = true;
                self.two_factor_triggered = true;
            }
            if !self.two_factor_submitted {
                if interactive {
                    chores.prompt_for_code = true;
                } else {
                    chores.note_unattended = true;
                    self.two_factor_submitted = true;
                }
            }
        }
        if page.captcha && !self.captcha_announced {
            chores.announce_captcha = true;
            self.captcha_announced = true;
        }
        LoginStep::Wait(chores)
    }

    /// Takes in what came of asking for the code, and says for how many seconds to
    /// pause.
    pub fn prompted(&mut self, outcome: PromptOutcome) -> (r: u64)
        ensures
            *final(self) == after_prompt(*old(self), outcome),
            r == (if outcome == PromptOutcome::Empty {
                EMPTY_CODE_PAUSE_SECS
            } else {
                0
            }),
    {
        match outcome {
            PromptOutcome::Submitted => {
                self.two_factor_submitted = true;
                0
            },
            PromptOutcome::Empty => EMPTY_CODE_PAUSE_SECS,
            PromptOutcome::Failed => 0,
        }
    }
}

/// Says what follows from a step, once its chores are done, when the login has
/// taken `elapsed_secs` seconds: a login that is not over is given up after five
/// minutes, whether or not the page could be read.
pub fn login_turn(step: LoginStep, elapsed_secs: u64) -> (r: LoginTurn)
    ensures
        r == turn_of(step, elapsed_secs as int),
{
    match step {
        LoginStep::Done => LoginTurn::Done,
        LoginStep::Rejected => LoginTurn::Rejected,
        LoginStep::Wait(_) => if elapsed_secs >= LOGIN_TIMEOUT_SECS {
            LoginTurn::GiveUp
        } else {
            LoginTurn::Again
        },
    }
}

// ── laws ────────────────────────────────────────────────────────────────────
/// One look at the page: what it found, whether someone was there to enter a code,
/// what came of asking for one, if that was done, and how many seconds the login
/// had taken after the chores.
pub struct Look {
    pub read: PageRead,
    pub interactive: bool,
    pub outcome: PromptOutcome,
    pub elapsed_secs: int,
}

/// What has been done after a look and its chores.
pub open spec fn after_one(watch: LoginWatch, look: Look) -> LoginWatch {
    let seen = after_look(watch, look.read, look.interactive);
    match step_of(watch, look.read, look.interactive) {
        LoginStep::Wait(chores) => if chores.prompt_for_code {
            after_prompt(seen, look.outcome)
        } else {
            seen
        },
        _ => seen,
    }
}

/// What has been done after all the looks.
pub open spec fn after_all(watch: LoginWatch, looks: Seq<Look>) -> LoginWatch
    decreases looks.len(),
{
    if looks.len() == 0 {
        watch
    } else {
        after_one(after_all(watch, looks.drop_last()), looks.last())
    }
}

/// The chores of the last look.
pub open spec fn last_chores(watch: LoginWatch, looks: Seq<Look>) -> LoginChores {
    chores_of(
        after_all(watch, looks.drop_last()),
        looks.last().read,
        looks.last().interactive,
    )
}

/// At how many looks the chore `which` was due.
pub open spec fn times_due(
    watch: LoginWatch,
    looks: Seq<Look>,
    which: spec_fn(LoginChores) -> bool,
) -> nat
    decreases looks.len(),
{
    if looks.len() == 0 {
        0
    } else {
        times_due(watch, looks.drop_last(), which) + if !ends_login(looks.last().read) && which(
            last_chores(watch, looks),
        ) {
            1nat
        } else {
            0nat
        }
    }
}

/// What a whole login comes to: the turn at the first look that does not lead to
/// another one.
pub open spec fn login_of(watch: LoginWatch, looks: Seq<Look>) -> LoginTurn
    decreases looks.len(),
{
    if looks.len() == 0 {
        LoginTurn::Again
    } else {
        let look = looks[0];
        let turn = turn_of(step_of(watch, look.read, look.interactive), look.elapsed_secs);
        if turn == LoginTurn::Again {
            login_of(after_one(watch, look), looks.drop_first())
        } else {
            turn
        }
    }
}

/// A login ends in time: at the first look after five minutes it is over, whatever
/// the looks found, pages that could not be read among them.
pub proof fn law_login_ends_in_time(watch: LoginWatch, looks: Seq<Look>, i: int)
    requires
        0 <= i < looks.len(),
        looks[i].elapsed_secs >= LOGIN_TIMEOUT_SECS,
    ensures
        login_of(watch, looks.take(i + 1)) != LoginTurn::Again,
        login_of(watch, looks) == login_of(watch, looks.take(i + 1)),
    decreases looks.len(),
{
    let upto = looks.take(i + 1);
    let look = looks[0];
    assert(upto[0] == look);
    let turn = turn_of(step_of(watch, look.read, look.interactive), look.elapsed_secs);
    if i > 0 && turn == LoginTurn::Again {
        let rest = looks.drop_first();
        assert(rest[i - 1] == looks[i]);
        law_login_ends_in_time(after_one(watch, look), rest, i - 1);
        assert(upto.drop_first() =~= rest.take(i));
    }
}

/// A login that never reaches the portal and is never rejected is given up once
/// five minutes have passed; until then it goes on.
pub proof fn law_login_without_end_is_given_up(watch: LoginWatch, looks: Seq<Look>)
    requires
        forall|i: int| 0 <= i < looks.len() ==> !ends_login((#[trigger] looks[i]).read),
    ensures
        login_of(watch, looks) == LoginTurn::GiveUp <==> exists|i: int|
            0 <= i < looks.len() && (#[trigger] looks[i]).elapsed_secs >= LOGIN_TIMEOUT_SECS,
        login_of(watch, looks) == LoginTurn::GiveUp || login_of(watch, looks) == LoginTurn::Again,
    decreases looks.len(),
{
    if looks.len() > 0 {
        let look = looks[0];
        let rest = looks.drop_first();
        assert(!ends_login(look.read));
        if look.elapsed_secs < LOGIN_TIMEOUT_SECS {
            assert forall|i: int| 0 <= i < rest.len() implies !ends_login(
                (#[trigger] rest[i]).read,
            ) by {
                assert(rest[i] == looks[i + 1]);
            }
            law_login_without_end_is_given_up(after_one(watch, look), rest);
            if exists|i: int|
                0 <= i < rest.len() && (#[trigger] rest[i]).elapsed_secs >= LOGIN_TIMEOUT_SECS {
                let i = choose|i: int|
                    0 <= i < rest.len() && (#[trigger] rest[i]).elapsed_secs >= LOGIN_TIMEOUT_SECS;
                assert(looks[i + 1].elapsed_secs >= LOGIN_TIMEOUT_SECS);
            }
            if exists|i: int|
                0 <= i < looks.len() && (#[trigger] looks[i]).elapsed_secs >= LOGIN_TIMEOUT_SECS {
                let i = choose|i: int|
                    0 <= i < looks.len() && (#[trigger] looks[i]).elapsed_secs
                        >= LOGIN_TIMEOUT_SECS;
                assert(rest[i - 1].elapsed_secs >= LOGIN_TIMEOUT_SECS);
            }
        }
    }
}

/// A login is done only where a look found the portal.
pub proof fn law_login_is_done_on_the_portal(watch: LoginWatch, looks: Seq<Look>)
    requires
        login_of(watch, looks) == LoginTurn::Done,
    ensures
        exists|i: int|
            0 <= i < looks.len() && ((#[trigger] looks[i]).read matches PageRead::Shows(page)
                && page.on_portal),
    decreases looks.len(),
{
    let look = looks[0];
    let turn = turn_of(step_of(watch, look.read, look.interactive), look.elapsed_secs);
    if turn == LoginTurn::Again {
        let rest = looks.drop_first();
        law_login_is_done_on_the_portal(after_one(watch, look), rest);
        let i = choose|i: int|
            0 <= i < rest.len() && ((#[trigger] rest[i]).read matches PageRead::Shows(page)
                && page.on_portal);
        assert(looks[i + 1] == rest[i]);
    } else {
        assert(looks[0].read is Shows);
    }
}

/// Nothing that was done is ever taken back.
pub proof fn law_watch_only_grows(watch: LoginWatch, looks: Seq<Look>)
    ensures
        watch.captcha_announced ==> after_all(watch, looks).captcha_announced,
        watch.two_factor_announced ==> after_all(watch, looks).two_factor_announced,
        watch.two_factor_triggered ==> after_all(watch, looks).two_factor_triggered,
        watch.two_factor_submitted ==> after_all(watch, looks).two_factor_submitted,
    decreases looks.len(),
{
    if looks.len() > 0 {
        law_watch_only_grows(watch, looks.drop_last());
    }
}

/// Over a whole login the second factor is announced at most once, its code is
/// requested at most once, and the captcha and the missing user are each spoken of
/// at most once, however often the page is looked at.
pub proof fn law_chores_come_once(watch: LoginWatch, looks: Seq<Look>)
    ensures
        times_due(watch, looks, |c: LoginChores| c.announce_two_factor) <= 1,
        times_due(watch, looks, |c: LoginChores| c.request_code) <= 1,
        times_due(watch, looks, |c: LoginChores| c.note_unattended) <= 1,
        times_due(watch, looks, |c: LoginChores| c.announce_captcha) <= 1,
{
    lemma_due_marks(watch, looks);
}

proof fn lemma_due_marks(watch: LoginWatch, looks: Seq<Look>)
    ensures
        ({
            let end = after_all(watch, looks);
            &&& times_due(watch, looks, |c: LoginChores| c.announce_two_factor) <= if end.two_factor_announced {
                1nat
            } else {
                0nat
            }
            &&& times_due(watch, looks, |c: LoginChores| c.request_code) <= if end.two_factor_triggered {
                1nat
            } else {
                0nat
            }
            &&& times_due(watch, looks, |c: LoginChores| c.note_unattended) <= if end.two_factor_submitted {
                1nat
            } else {
                0nat
            }
            &&& times_due(watch, looks, |c: LoginChores| c.announce_captcha) <= if end.captcha_announced {
                1nat
            } else {
                0nat
            }
        }),
    decreases looks.len(),
{
    if looks.len() > 0 {
        lemma_due_marks(watch, looks.drop_last());
    }
}

/// The code is requested before it is asked for: at a look that asks for the code,
/// it was requested at an earlier look or is requested at this one.
pub proof fn law_code_is_requested_first(watch: LoginWatch, read: PageRead, interactive: bool)
    ensures
        chores_of(watch, read, interactive).prompt_for_code ==> watch.two_factor_triggered
            || chores_of(watch, read, interactive).request_code,
{
}

/// Once a code was submitted nobody is asked for one again.
pub proof fn law_no_prompt_after_submission(watch: LoginWatch, looks: Seq<Look>)
    requires
        watch.two_factor_submitted,
    ensures
        times_due(watch, looks, |c: LoginChores| c.prompt_for_code) == 0,
    decreases looks.len(),
{
    if looks.len() > 0 {
        law_no_prompt_after_submission(watch, looks.drop_last());
        law_watch_only_grows(watch, looks.drop_last());
    }
}

/// Nobody is asked for a code where nobody is there.
pub proof fn law_unattended_login_never_prompts(watch: LoginWatch, read: PageRead)
    ensures
        !chores_of(watch, read, false).prompt_for_code,
{
}

/// How long a login may take, and how long nothing typed is waited on.
pub proof fn law_waiting_times()
    ensures
        LOGIN_TIMEOUT_SECS == 300,
        EMPTY_CODE_PAUSE_SECS == 2,
{
}

/// What follows from a look: the portal ends the login, and so does a page that
/// rejects it; any other page, and one that could not be read, is waited on.
pub proof fn law_steps(watch: LoginWatch, page: LoginPage, interactive: bool)
    ensures
        page.on_portal ==> step_of(watch, PageRead::Shows(page), interactive) == LoginStep::Done,
        !page.on_portal && page.rejected ==> step_of(watch, PageRead::Shows(page), interactive)
            == LoginStep::Rejected,
        !page.on_portal && !page.rejected ==> step_of(watch, PageRead::Shows(page), interactive)
            == LoginStep::Wait(chores_of(watch, PageRead::Shows(page), interactive)),
        step_of(watch, PageRead::Unreadable, interactive) == LoginStep::Wait(
            (LoginChores {
                announce_two_factor: false,
                request_code: false,
                prompt_for_code: false,
                note_unattended: false,
                announce_captcha: false,
            }),
        ),
        ends_login(PageRead::Shows(page)) <==> page.on_portal || page.rejected,
        !ends_login(PageRead::Unreadable),
{
}

/// Each chore is due exactly where the page calls for it and it was not done: all
/// but that of the captcha where the page asks for a second factor, and whether the
/// code is asked for or its want is noted goes by whether someone is there.
pub proof fn law_chores_are_due(watch: LoginWatch, page: LoginPage, interactive: bool)
    ensures
        ({
            let c = chores_of(watch, PageRead::Shows(page), interactive);
            &&& c.announce_two_factor <==> page.multifactor && !watch.two_factor_announced
            &&& c.request_code <==> page.multifactor && !watch.two_factor_triggered
            &&& c.prompt_for_code <==> page.multifactor && !watch.two_factor_submitted
                && interactive
            &&& c.note_unattended <==> page.multifactor && !watch.two_factor_submitted
                && !interactive
            &&& c.announce_captcha <==> page.captcha && !watch.captcha_announced
        }),
{
}

/// A chore that was due at a look counts as done after it, but for the prompt, which
/// counts once it came out well; what was not due stays as it was, and so does
/// everything at a look that ends the login or could not read the page.
pub proof fn law_chores_are_marked_done(
    watch: LoginWatch,
    page: LoginPage,
    interactive: bool,
    outcome: PromptOutcome,
)
    ensures
        page.on_portal || page.rejected ==> after_look(watch, PageRead::Shows(page), interactive)
            == watch,
        after_look(watch, PageRead::Unreadable, interactive) == watch,
        !page.on_portal && !page.rejected ==> {
            let c = chores_of(watch, PageRead::Shows(page), interactive);
            let after = after_look(watch, PageRead::Shows(page), interactive);
            &&& after.two_factor_announced <==> watch.two_factor_announced || c.announce_two_factor
            &&& after.two_factor_triggered <==> watch.two_factor_triggered || c.request_code
            &&& after.two_factor_submitted <==> watch.two_factor_submitted || c.note_unattended
            &&& after.captcha_announced <==> watch.captcha_announced || c.announce_captcha
        },
        after_prompt(watch, outcome).two_factor_submitted <==> watch.two_factor_submitted || outcome
            is Submitted,
        after_prompt(watch, outcome).two_factor_announced == watch.two_factor_announced,
        after_prompt(watch, outcome).two_factor_triggered == watch.two_factor_triggered,
        after_prompt(watch, outcome).captcha_announced == watch.captcha_announced,
{
}

/// A login that is over stays over whatever time it took; one that is not is given
/// up from five minutes on, and looked at again before.
pub proof fn law_turns(chores: LoginChores, elapsed_secs: int)
    ensures
        turn_of(LoginStep::Done, elapsed_secs) == LoginTurn::Done,
        turn_of(LoginStep::Rejected, elapsed_secs) == LoginTurn::Rejected,
        turn_of(LoginStep::Wait(chores), elapsed_secs) == LoginTurn::GiveUp <==> elapsed_secs >= 300,
        turn_of(LoginStep::Wait(chores), elapsed_secs) == LoginTurn::Again <==> elapsed_secs < 300,
{
}

} // verus!
