//! How a browser is come by, how the login in it begins, and how long its pages
//! are waited for.

use crate::text;
use crate::text::{contains, to_chars, trim};
use vstd::prelude::*;
use vstd::string::*;

verus! {

pub const DEFAULT_CHROME_EXECUTABLE: &'static str = "/Applications/Google Chrome.app/Contents/MacOS/Google Chrome";

pub const CHROME_PROFILE_DIRECTORY: &'static str = "Default";

/// How many seconds a session that already exists is waited for.
pub const EXISTING_BROWSER_WAIT_SECS: u64 = 5;

/// How many seconds a page is asked again while it is being replaced.
pub const RETRY_SECS: u64 = 10;

// ── settings ────────────────────────────────────────────────────────────────
/// The setting, unless it is absent or white space alone.
pub open spec fn setting_of(value: Option<Seq<char>>) -> Option<Seq<char>> {
    match value {
        Some(v) => if text::trimmed(v).len() > 0 {
            Some(v)
        } else {
            None
        },
        None => None,
    }
}

/// The setting, or `default` where it is absent or white space alone.
pub open spec fn setting_or(value: Option<Seq<char>>, default: Seq<char>) -> Seq<char> {
    match setting_of(value) {
        Some(v) => v,
        None => default,
    }
}

fn read_setting(value: Option<&str>) -> (r: Option<String>)
    ensures
        text::opt_view(r) == setting_of(text::opt_str_view(value)),
{
    match value {
        Some(v) => if trim(v).as_str().is_empty() {
            None
        } else {
            Some(v.to_owned())
        },
        None => None,
    }
}

/// The profile that Chrome is started with, from the variable that may name it.
pub fn chrome_profile_directory(variable: Option<&str>) -> (r: String)
    ensures
        r@ == setting_or(text::opt_str_view(variable), CHROME_PROFILE_DIRECTORY@),
{
    match read_setting(variable) {
        Some(v) => v,
        None => CHROME_PROFILE_DIRECTORY.to_owned(),
    }
}

/// The program that Chrome is started by, from the variable that may name it.
pub fn chrome_executable(variable: Option<&str>) -> (r: String)
    ensures
        r@ == setting_or(text::opt_str_view(variable), DEFAULT_CHROME_EXECUTABLE@),
{
    match read_setting(variable) {
        Some(v) => v,
        None => DEFAULT_CHROME_EXECUTABLE.to_owned(),
    }
}

/// The texts of a list.
pub open spec fn text_views(texts: Seq<String>) -> Seq<Seq<char>> {
    Seq::new(texts.len(), |i: int| texts[i]@)
}

/// Where Chrome keeps the user's profiles below the home directory.
pub const CHROME_DATA_BELOW_HOME: &'static str = "Library/Application Support/Google/Chrome";

/// The path `below` under the directory `directory`.
pub open spec fn path_under(directory: Seq<char>, below: Seq<char>) -> Seq<char> {
    if directory.len() == 0 || directory.last() == '/' {
        directory + below
    } else {
        directory + "/"@ + below
    }
}

/// The directories that the user's Chrome profiles are looked for in: the one that
/// is set, and the usual one below the home directory.
pub open spec fn data_dirs_for(variable: Option<Seq<char>>, home: Option<Seq<char>>) -> Seq<
    Seq<char>,
> {
    let set = match variable {
        Some(dir) => seq![dir],
        None => Seq::empty(),
    };
    match home {
        Some(h) => set.push(path_under(h, CHROME_DATA_BELOW_HOME@)),
        None => set,
    }
}

/// The directories that the user's Chrome profiles are looked for in; the first one
/// that exists counts.
pub fn chrome_data_dirs(variable: Option<&str>, home: Option<&str>) -> (r: Vec<String>)
    ensures
        text_views(r@) == data_dirs_for(text::opt_str_view(variable), text::opt_str_view(home)),
{
    let mut out: Vec<String> = Vec::new();
    if let Some(dir) = variable {
        out.push(dir.to_owned());
    }
    if let Some(h) = home {
        let cs: Vec<char> = to_chars(h);
        let n: usize = cs.len();
        let mut path: String = h.to_owned();
        if n > 0 && cs[n - 1] != '/' {
            path.append("/");
        }
        path.append(CHROME_DATA_BELOW_HOME);
        out.push(path);
    }
    assert(text_views(out@) =~= data_dirs_for(
        text::opt_str_view(variable),
        text::opt_str_view(home),
    ));
    out
}

/// The arguments that Chrome is started with.
pub open spec fn arguments_for(profile_directory: Option<Seq<char>>) -> Seq<Seq<char>> {
    let common = seq!["--disable-gpu"@, "--disable-dev-shm-usage"@];
    match profile_directory {
        Some(p) => common.push("--profile-directory="@ + p),
        None => common,
    }
}

/// The arguments that Chrome is started with.
pub fn chrome_arguments(profile_directory: Option<&str>) -> (r: Vec<String>)
    ensures
        text_views(r@) == arguments_for(text::opt_str_view(profile_directory)),
{
    let mut out: Vec<String> = Vec::new();
    out.push("--disable-gpu".to_owned());
    out.push("--disable-dev-shm-usage".to_owned());
    if let Some(p) = profile_directory {
        let mut argument: String = "--profile-directory=".to_owned();
        argument.append(p);
        out.push(argument);
    }
    assert(text_views(out@) =~= arguments_for(text::opt_str_view(profile_directory)));
    out
}

// ── coming by a browser ─────────────────────────────────────────────────────
/// One way to come by a browser.
#[derive(Debug, Clone)]
pub enum BrowserAttempt {
    /// Connect to the debugging endpoint of a Chrome that runs already.
    Connect(String),
    /// Start Chrome with the user's own profile.
    LaunchWithProfile,
    /// Start Chrome with a profile of its own.
    LaunchIsolated,
}

/// The contents of a `BrowserAttempt`.
pub enum AttemptView {
    Connect(Seq<char>),
    LaunchWithProfile,
    LaunchIsolated,
}

impl View for BrowserAttempt {
    type V = AttemptView;

    open spec fn view(&self) -> AttemptView {
        match *self {
            BrowserAttempt::Connect(endpoint) => AttemptView::Connect(endpoint@),
            BrowserAttempt::LaunchWithProfile => AttemptView::LaunchWithProfile,
            BrowserAttempt::LaunchIsolated => AttemptView::LaunchIsolated,
        }
    }
}

/// The contents of each attempt.
pub open spec fn attempt_views(attempts: Seq<BrowserAttempt>) -> Seq<AttemptView> {
    Seq::new(attempts.len(), |i: int| attempts[i]@)
}

/// The endpoints that a running Chrome is looked for at: the one that is set, if
/// any, and the usual ones.
pub open spec fn endpoints_for(variable: Option<Seq<char>>) -> Seq<Seq<char>> {
    let usual = seq![
        "http://127.0.0.1:9222"@,
        "http://127.0.0.1:9223"@,
        "http://localhost:9222"@,
    ];
    match setting_of(variable) {
        Some(endpoint) => seq![endpoint] + usual,
        None => usual,
    }
}

/// The endpoints that a running Chrome is looked for at.
pub fn debug_endpoints(variable: Option<&str>) -> (r: Vec<String>)
    ensures
        text_views(r@) == endpoints_for(text::opt_str_view(variable)),
{
    let mut out: Vec<String> = Vec::new();
    if let Some(endpoint) = read_setting(variable) {
        out.push(endpoint);
    }
    out.push("http://127.0.0.1:9222".to_owned());
    out.push("http://127.0.0.1:9223".to_owned());
    out.push("http://localhost:9222".to_owned());
    assert(text_views(out@) =~= endpoints_for(text::opt_str_view(variable)));
    out
}

/// The attempts in their order: a Chrome that runs already, the user's profile
/// where there is one, and a profile of its own.
pub open spec fn plan_for(variable: Option<Seq<char>>, has_profile: bool) -> Seq<AttemptView> {
    let endpoints = endpoints_for(variable);
    let connect = Seq::new(endpoints.len(), |i: int| AttemptView::Connect(endpoints[i]));
    let profile = if has_profile {
        seq![AttemptView::LaunchWithProfile]
    } else {
        Seq::empty()
    };
    connect + profile + seq![AttemptView::LaunchIsolated]
}

/// The attempts in their order; the first one that succeeds counts.
pub fn browser_plan(variable: Option<&str>, has_profile: bool) -> (r: Vec<BrowserAttempt>)
    ensures
        attempt_views(r@) == plan_for(text::opt_str_view(variable), has_profile),
{
    let endpoints: Vec<String> = debug_endpoints(variable);
    let ghost views = endpoints_for(text::opt_str_view(variable));
    let mut out: Vec<BrowserAttempt> = Vec::new();
    let mut i: usize = 0;
    assert(text_views(endpoints@).len() == endpoints@.len());
    while i < endpoints.len()
        invariant
            i <= endpoints@.len(),
            views == text_views(endpoints@),
            out@.len() == i,
            forall|j: int|
                0 <= j < i ==> (#[trigger] out@[j])@ == AttemptView::Connect(views[j]),
        decreases endpoints@.len() - i,
    {
        out.push(BrowserAttempt::Connect(endpoints[i].clone()));
        i = i + 1;
    }
    if has_profile {
        out.push(BrowserAttempt::LaunchWithProfile);
    }
    out.push(BrowserAttempt::LaunchIsolated);
    assert(attempt_views(out@) =~= plan_for(text::opt_str_view(variable), has_profile));
    out
}

/// A browser that was started is closed in the end; one that ran already is not.
pub open spec fn is_own_browser(attempt: AttemptView) -> bool {
    !(attempt is Connect)
}

/// True where the browser is to be closed in the end.
pub fn closes_browser(attempt: &BrowserAttempt) -> (r: bool)
    ensures
        r == is_own_browser(attempt@),
{
    match attempt {
        BrowserAttempt::Connect(_) => false,
        BrowserAttempt::LaunchWithProfile => true,
        BrowserAttempt::LaunchIsolated => true,
    }
}

// ── beginning the login ─────────────────────────────────────────────────────
/// How the login goes on from the first page.
#[derive(Debug, Clone)]
pub enum LoginPath {
    /// The student portal is reached already.
    LoggedIn,
    /// The second factor is asked for: only the completion is waited for.
    AwaitCompletion,
    /// The login form is to be filled in.
    FillForm { username: String, password: String },
}

/// What the login form cannot be filled in without.
#[derive(Debug, Clone, Copy, PartialEq, Eq, Structural)]
pub enum MissingCredential {
    Username,
    Password,
}

/// Chooses how the login goes on. Credentials are needed only where neither the
/// portal nor the page for the second factor is reached without them.
pub fn choose_login_path(
    on_portal: bool,
    multifactor: bool,
    username: Option<&str>,
    password: Option<&str>,
) -> (r: Result<LoginPath, MissingCredential>)
    ensures
        match r {
            Ok(LoginPath::LoggedIn) => on_portal,
            Ok(LoginPath::AwaitCompletion) => !on_portal && multifactor,
            Ok(LoginPath::FillForm { username: u, password: p }) => !on_portal && !multifactor
                && text::opt_str_view(username) == Some(u@) && text::opt_str_view(password) == Some(
                p@,
            ),
            Err(MissingCredential::Username) => !on_portal && !multifactor && username is None,
            Err(MissingCredential::Password) => !on_portal && !multifactor && username is Some
                && password is None,
        },
{
    if on_portal {
        return Ok(LoginPath::LoggedIn);
    }
    if multifactor {
        return Ok(LoginPath::AwaitCompletion);
    }
    match username {
        Some(u) => match password {
            Some(p) => Ok(
                LoginPath::FillForm { username: u.to_owned(), password: p.to_owned() },
            ),
            None => Err(MissingCredential::Password),
        },
        None => Err(MissingCredential::Username),
    }
}

// ── waiting ─────────────────────────────────────────────────────────────────
/// What follows when something was looked for.
#[derive(Debug, Clone, Copy, PartialEq, Eq, Structural)]
pub enum Poll {
    Found,
    TimedOut,
    Again,
}

/// Decides whether to look again for what was not found after `elapsed_secs`
/// seconds.
pub fn poll(found: bool, elapsed_secs: u64, timeout_secs: u64) -> (r: Poll)
    ensures
        r == (if found {
            Poll::Found
        } else if elapsed_secs >= timeout_secs {
            Poll::TimedOut
        } else {
            Poll::Again
        }),
{
    if found {
        Poll::Found
    } else if elapsed_secs >= timeout_secs {
        Poll::TimedOut
    } else {
        Poll::Again
    }
}

/// Some cause of an error says that the page was being replaced.
pub open spec fn is_missing_context(causes: Seq<Seq<char>>) -> bool {
    exists|i: int|
        0 <= i < causes.len() && text::holds(
            #[trigger] causes[i],
            "Cannot find context with specified id"@,
        )
}

/// True where some cause of an error says that the page was being replaced.
pub fn is_missing_context_error(causes: &Vec<String>) -> (r: bool)
    ensures
        r == is_missing_context(text_views(causes@)),
{
    let ghost views = text_views(causes@);
    let mut i: usize = 0;
    while i < causes.len()
        invariant
            i <= causes@.len(),
            views == text_views(causes@),
            forall|j: int|
                0 <= j < i ==> !text::holds(
                    #[trigger] views[j],
                    "Cannot find context with specified id"@,
                ),
        decreases causes@.len() - i,
    {
        if contains(causes[i].as_str(), "Cannot find context with specified id") {
            assert(views[i as int] == causes@[i as int]@);
            return true;
        }
        i = i + 1;
    }
    false
}

/// True where a page that failed for these causes is asked again.
pub fn retries_page(causes: &Vec<String>, elapsed_secs: u64) -> (r: bool)
    ensures
        r == (is_missing_context(text_views(causes@)) && elapsed_secs < RETRY_SECS),
{
    is_missing_context_error(causes) && elapsed_secs < RETRY_SECS
}

// ── laws ────────────────────────────────────────────────────────────────────
/// There is always a way left, and it is tried last: a browser with a profile of
/// its own.
pub proof fn law_plan_ends_isolated(variable: Option<Seq<char>>, has_profile: bool)
    ensures
        ({
            let plan = plan_for(variable, has_profile);
            &&& plan.len() > 0
            &&& plan.last() == AttemptView::LaunchIsolated
            &&& forall|i: int|
                0 <= i < plan.len() - 1 ==> #[trigger] plan[i] != AttemptView::LaunchIsolated
        }),
{
}

/// A running Chrome is looked for before any is started.
pub proof fn law_running_chrome_comes_first(
    variable: Option<Seq<char>>,
    has_profile: bool,
    i: int,
    j: int,
)
    requires
        0 <= i < plan_for(variable, has_profile).len(),
        0 <= j < plan_for(variable, has_profile).len(),
        !is_own_browser(plan_for(variable, has_profile)[i]),
        is_own_browser(plan_for(variable, has_profile)[j]),
    ensures
        i < j,
{
}

/// An endpoint that is set is looked at before the usual ones.
pub proof fn law_set_endpoint_comes_first(variable: Seq<char>, has_profile: bool)
    requires
        text::trimmed(variable).len() > 0,
    ensures
        plan_for(Some(variable), has_profile)[0] == AttemptView::Connect(variable),
{
}

/// The usual settings, and how long things are waited for.
pub proof fn law_usual_settings()
    ensures
        DEFAULT_CHROME_EXECUTABLE@
            == "/Applications/Google Chrome.app/Contents/MacOS/Google Chrome"@,
        CHROME_PROFILE_DIRECTORY@ == "Default"@,
        CHROME_DATA_BELOW_HOME@ == "Library/Application Support/Google/Chrome"@,
        EXISTING_BROWSER_WAIT_SECS == 5,
        RETRY_SECS == 10,
{
}

/// The contents of lists are those of their members, in order.
pub proof fn law_list_contents(texts: Seq<String>, attempts: Seq<BrowserAttempt>)
    ensures
        text_views(texts).len() == texts.len(),
        forall|i: int| 0 <= i < texts.len() ==> #[trigger] text_views(texts)[i] == texts[i]@,
        attempt_views(attempts).len() == attempts.len(),
        forall|i: int|
            0 <= i < attempts.len() ==> {
                &&& (#[trigger] attempt_views(attempts)[i]) is Connect <==> attempts[i] is Connect
                &&& attempts[i] matches BrowserAttempt::Connect(e) ==> attempt_views(attempts)[i]
                    == AttemptView::Connect(e@)
                &&& attempt_views(attempts)[i] is LaunchWithProfile <==> attempts[i]
                    is LaunchWithProfile
                &&& attempt_views(attempts)[i] is LaunchIsolated <==> attempts[i] is LaunchIsolated
            },
{
}

/// A setting counts as it is written, unless it is absent or white space alone: then
/// the default does.
pub proof fn law_setting_counts_as_written(value: Seq<char>, default: Seq<char>)
    ensures
        setting_of(None) is None,
        setting_or(None, default) == default,
        text::trimmed(value).len() > 0 ==> setting_of(Some(value)) == Some(value) && setting_or(
            Some(value),
            default,
        ) == value,
        text::trimmed(value).len() == 0 ==> setting_of(Some(value)) is None && setting_or(
            Some(value),
            default,
        ) == default,
{
}

/// The directory that is set comes first, and then the usual one below the home
/// directory, with one slash between the two.
pub proof fn law_data_dirs(set: Seq<char>, home: Seq<char>)
    ensures
        data_dirs_for(None, None).len() == 0,
        data_dirs_for(Some(set), None) == seq![set],
        home.len() > 0 && home.last() != '/' ==> data_dirs_for(None, Some(home)) == seq![
            home + "/"@ + "Library/Application Support/Google/Chrome"@,
        ],
        home.len() == 0 || home.last() == '/' ==> data_dirs_for(None, Some(home)) == seq![
            home + "Library/Application Support/Google/Chrome"@,
        ],
        data_dirs_for(Some(set), Some(home)) == data_dirs_for(Some(set), None) + data_dirs_for(
            None,
            Some(home),
        ),
{
    let below = path_under(home, CHROME_DATA_BELOW_HOME@);
    assert(data_dirs_for(None, Some(home)) =~= seq![below]);
    assert(data_dirs_for(Some(set), Some(home)) =~= seq![set] + seq![below]);
}

/// The arguments that Chrome is started with, with and without a profile.
pub proof fn law_chrome_arguments(profile: Seq<char>)
    ensures
        arguments_for(None) == seq!["--disable-gpu"@, "--disable-dev-shm-usage"@],
        arguments_for(Some(profile)) == seq![
            "--disable-gpu"@,
            "--disable-dev-shm-usage"@,
            "--profile-directory="@ + profile,
        ],
{
    assert(arguments_for(Some(profile)) =~= seq![
        "--disable-gpu"@,
        "--disable-dev-shm-usage"@,
        "--profile-directory="@ + profile,
    ]);
}

/// A running Chrome is looked for at the endpoint that is set and at the usual
/// ones, in this order.
pub proof fn law_endpoints(variable: Seq<char>)
    ensures
        endpoints_for(None) == seq![
            "http://127.0.0.1:9222"@,
            "http://127.0.0.1:9223"@,
            "http://localhost:9222"@,
        ],
        text::trimmed(variable).len() == 0 ==> endpoints_for(Some(variable)) == endpoints_for(None),
        text::trimmed(variable).len() > 0 ==> endpoints_for(Some(variable)) == seq![variable]
            + endpoints_for(None),
{
}

/// The plan connects to each endpoint in its order, starts Chrome with the user's
/// profile where there is one, and last with a profile of its own; there is nothing
/// else in it.
pub proof fn law_plan_is_complete(variable: Option<Seq<char>>, has_profile: bool)
    ensures
        ({
            let plan = plan_for(variable, has_profile);
            let endpoints = endpoints_for(variable);
            &&& plan.len() == endpoints.len() + (if has_profile {
                2int
            } else {
                1
            })
            &&& forall|i: int|
                0 <= i < endpoints.len() ==> #[trigger] plan[i] == AttemptView::Connect(
                    endpoints[i],
                )
            &&& has_profile ==> plan[endpoints.len() as int] == AttemptView::LaunchWithProfile
            &&& plan[plan.len() - 1] == AttemptView::LaunchIsolated
        }),
{
}

/// A browser is closed in the end exactly where it was started.
pub proof fn law_started_browsers_are_closed(endpoint: Seq<char>)
    ensures
        !is_own_browser(AttemptView::Connect(endpoint)),
        is_own_browser(AttemptView::LaunchWithProfile),
        is_own_browser(AttemptView::LaunchIsolated),
{
}

/// One cause that says that the page was being replaced is enough, wherever it
/// stands, and other causes do not count.
pub proof fn law_missing_context(before: Seq<Seq<char>>, cause: Seq<char>, after: Seq<Seq<char>>)
    ensures
        text::holds(cause, "Cannot find context with specified id"@) ==> is_missing_context(
            before + seq![cause] + after,
        ),
        is_missing_context(before) ==> exists|i: int|
            0 <= i < before.len() && text::holds(
                #[trigger] before[i],
                "Cannot find context with specified id"@,
            ),
{
    let all = before + seq![cause] + after;
    assert(all[before.len() as int] == cause);
}

} // verus!
