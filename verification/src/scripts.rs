//! The scripts that are run in a browser's pages, and what their answers say.

use crate::json;
use crate::json::JsonObject;
use crate::login_watch::PromptOutcome;
use crate::text;
use crate::text::{same_text, trim};
use vstd::prelude::*;
use vstd::string::*;
use vstd::utf8;

verus! {

/// What std's `Debug` writes for the text `input`: the text in double quotes, with
/// quotes, backslashes and what cannot be printed escaped.
pub uninterp spec fn debug_quoted(input: Seq<char>) -> Seq<char>;

/// What `serde_json::to_string` writes for the text `input`.
pub uninterp spec fn json_quoted(input: Seq<char>) -> Seq<char>;

/// Formats the text with `{:?}` of std. The result depends on the text alone and
/// has the name `debug_quoted`.
#[verifier::external_body]
fn quote_debug(input: &str) -> (r: String)
    ensures
        r@ == debug_quoted(input@),
{
    format!("{:?}", input)
}

/// Calls `serde_json::to_string` on the text, which does not fail for a text. The
/// result depends on the text alone and has the name `json_quoted`.
#[verifier::external_body]
fn quote_json(input: &str) -> (r: String)
    ensures
        r@ == json_quoted(input@),
{
    serde_json::to_string(input).expect("a text is always written")
}

/// Puts a value between two pieces of a script.
fn between(before: &str, value: &str, after: &str) -> (r: String)
    ensures
        r@ == before@ + value@ + after@,
{
    let mut script: String = before.to_owned();
    script.append(value);
    script.append(after);
    script
}

// ── navigation ──────────────────────────────────────────────────────────────
pub const NAVIGATE_HEAD: &'static str = "() => { window.location.href = ";

pub const NAVIGATE_TAIL: &'static str = "; }";

/// The script that takes the page to the URL whose literal is `quoted`.
pub open spec fn navigation(quoted: Seq<char>) -> Seq<char> {
    NAVIGATE_HEAD@ + quoted + NAVIGATE_TAIL@
}

/// The script that takes the page to the URL whose literal is `quoted`.
pub fn navigate_to(quoted: &str) -> (r: String)
    ensures
        r@ == navigation(quoted@),
{
    between(NAVIGATE_HEAD, quoted, NAVIGATE_TAIL)
}

/// The script that takes the page to `url`.
pub fn navigate_script(url: &str) -> (r: String)
    ensures
        r@ == navigation(debug_quoted(url@)),
{
    navigate_to(quote_debug(url).as_str())
}

// ── clicking a control ──────────────────────────────────────────────────────
pub const CLICK_HEAD: &'static str = "() => {
    const wanted = ";

pub const CLICK_TAIL: &'static str = ";
    const candidates = Array.from(document.querySelectorAll('a,button,input[type=\"submit\"]'));
    const control = candidates.find((node) => ((node.innerText || node.value || '').trim() === wanted));
    if (!control) {
        throw new Error(`Could not find control: ${wanted}`);
    }
    control.click();
    return wanted;
}";

/// The script that clicks the control whose label has the literal `quoted`.
pub open spec fn clicking(quoted: Seq<char>) -> Seq<char> {
    CLICK_HEAD@ + quoted + CLICK_TAIL@
}

/// The script that clicks the control whose label has the literal `quoted`.
pub fn click_on(quoted: &str) -> (r: String)
    ensures
        r@ == clicking(quoted@),
{
    between(CLICK_HEAD, quoted, CLICK_TAIL)
}

/// The script that clicks the link or button labelled `label`.
pub fn click_script(label: &str) -> (r: String)
    ensures
        r@ == clicking(debug_quoted(label@)),
{
    click_on(quote_debug(label).as_str())
}

// ── login form ──────────────────────────────────────────────────────────────
pub const FILL_HEAD: &'static str = "() => {
    const usernameInput = document.getElementById('username');
    const passwordInput = document.getElementById('password');
    if (!usernameInput || !passwordInput) {
        throw new Error('Could not find #username or #password inputs');
    }
    const applyValue = (node, value) => {
        node.focus();
        node.value = value;
        const nativeSetter = Object.getOwnPropertyDescriptor(
            window.HTMLInputElement.prototype, 'value'
        ).set;
        nativeSetter.call(node, value);
        node.dispatchEvent(new Event('input', { bubbles: true }));
        node.dispatchEvent(new Event('change', { bubbles: true }));
        node.dispatchEvent(new Event('blur', { bubbles: true }));
    };
    applyValue(usernameInput, ";

pub const FILL_MIDDLE: &'static str = ");
    applyValue(passwordInput, ";

pub const FILL_TAIL: &'static str = ");
    return {
        username: usernameInput.value,
        passwordLength: passwordInput.value.length,
    };
}";

/// The script that fills in the credentials whose literals are given.
pub open spec fn form_filling(username: Seq<char>, password: Seq<char>) -> Seq<char> {
    FILL_HEAD@ + username + FILL_MIDDLE@ + password + FILL_TAIL@
}

/// The script that fills in the credentials whose literals are given.
pub fn fill_form_with(username: &str, password: &str) -> (r: String)
    ensures
        r@ == form_filling(username@, password@),
{
    let mut script: String = between(FILL_HEAD, username, FILL_MIDDLE);
    script.append(password);
    script.append(FILL_TAIL);
    script
}

/// The script that fills `username` and `password` into the login form. It raises
/// the events by which the page notices what was typed.
pub fn fill_form_script(username: &str, password: &str) -> (r: String)
    ensures
        r@ == form_filling(debug_quoted(username@), debug_quoted(password@)),
{
    fill_form_with(quote_debug(username).as_str(), quote_debug(password).as_str())
}

/// What the form held once it was filled in.
#[derive(Debug, Clone, Copy, PartialEq, Eq, Structural)]
pub struct FilledForm {
    /// How many bytes the username has.
    pub username_len: usize,
    pub password_len: u64,
    pub username_matches: bool,
}

/// The username that the answer gives, or the empty text.
pub open spec fn filled_username(answer: Map<Seq<char>, json::JsonView>) -> Seq<char> {
    match json::text_member(answer, "username"@) {
        Some(u) => u,
        None => Seq::empty(),
    }
}

/// Reads the answer of the script that fills in the login form.
pub fn read_filled_form(answer: &JsonObject, username: &str) -> (r: FilledForm)
    ensures
        r.username_len == utf8::encode_utf8(filled_username(answer@)).len(),
        r.password_len == (match json::count_member(answer@, "passwordLength"@) {
            Some(n) => n,
            None => 0,
        }),
        r.username_matches == (filled_username(answer@) == username@),
{
    let filled: String = match answer.text("username") {
        Some(u) => u,
        None => String::new(),
    };
    let password_len: u64 = match answer.count("passwordLength") {
        Some(n) => n,
        None => 0,
    };
    FilledForm {
        username_len: filled.as_str().as_bytes().len(),
        password_len,
        username_matches: same_text(filled.as_str(), username),
    }
}

// ── second factor ───────────────────────────────────────────────────────────
/// The verification code in the line that was typed: trimmed, and none where
/// nothing is left.
pub open spec fn code_of(line: Seq<char>) -> Option<Seq<char>> {
    if text::trimmed(line).len() > 0 {
        Some(text::trimmed(line))
    } else {
        None
    }
}

/// The verification code in the line that was typed: trimmed, and none where
/// nothing is left.
pub fn entered_code(line: &str) -> (r: Option<String>)
    ensures
        text::opt_view(r) == code_of(line@),
{
    let code: String = trim(line);
    if code.as_str().is_empty() {
        None
    } else {
        Some(code)
    }
}

pub const CODE_HEAD: &'static str = "() => {
    const code = ";

pub const CODE_TAIL: &'static str = ";
    const inputSelectors = [
        '#code', '#verificationCode', '#totp', '#authcode', '#captcha',
        'input[name=\"code\"]', 'input[name=\"verificationCode\"]',
        'input[name=\"totp\"]', 'input[name=\"authcode\"]', 'input[name=\"captcha\"]',
        'input[placeholder*=\"动态码\"]', 'input[placeholder*=\"验证码\"]',
    ];
    let input = null;
    for (const sel of inputSelectors) {
        try { input = document.querySelector(sel); } catch(_) {}
        if (input) break;
    }
    if (!input) {
        input = Array.from(document.querySelectorAll('input[type=\"text\"]')).find(el => {
            const name = (el.name || '').toLowerCase();
            const id = (el.id || '').toLowerCase();
            return name !== 'username' && id !== 'username'
                && name !== 'password' && id !== 'password';
        });
    }
    if (!input) return { ok: false, reason: 'no code input found' };

    input.focus();
    input.value = code;
    input.dispatchEvent(new Event('input', { bubbles: true }));
    input.dispatchEvent(new Event('change', { bubbles: true }));

    const btnSelectors = [
        '#submit', '#verify', '#confirm', '#login_submit',
        'button[type=\"submit\"]', 'input[type=\"submit\"]',
    ];
    let btn = null;
    for (const sel of btnSelectors) {
        try { btn = document.querySelector(sel); } catch(_) {}
        if (btn) break;
    }
    if (!btn) {
        const candidates = Array.from(document.querySelectorAll('a, button, input[type=\"submit\"], input[type=\"button\"]'));
        btn = candidates.find(el => {
            const text = (el.innerText || el.value || '').trim();
            return text === '确认' || text === '提交' || text === '验证'
                || text === 'Verify' || text === 'Submit' || text === 'Confirm';
        });
    }
    if (btn) {
        btn.click();
        return { ok: true, submitted: true };
    }
    return { ok: true, submitted: false };
}";

/// The script that enters the code whose literal is `quoted`.
pub open spec fn code_filling(quoted: Seq<char>) -> Seq<char> {
    CODE_HEAD@ + quoted + CODE_TAIL@
}

/// The script that enters the code whose literal is `quoted`.
pub fn fill_code_with(quoted: &str) -> (r: String)
    ensures
        r@ == code_filling(quoted@),
{
    between(CODE_HEAD, quoted, CODE_TAIL)
}

/// The script that enters the verification code `code` and submits it.
pub fn fill_code_script(code: &str) -> (r: String)
    ensures
        r@ == code_filling(json_quoted(code@)),
{
    fill_code_with(quote_json(code).as_str())
}

/// True where the answer says that the code was submitted and not only filled in.
pub fn code_was_submitted(answer: &JsonObject) -> (r: bool)
    ensures
        r == (json::flag_member(answer@, "submitted"@) == Some(true)),
{
    match answer.flag("submitted") {
        Some(b) => b,
        None => false,
    }
}

/// What came of asking for the code, from the line that was typed and whether the
/// page says that it submitted the code.
pub open spec fn outcome_of(line: Seq<char>, submitted: bool) -> PromptOutcome {
    if code_of(line) is None {
        PromptOutcome::Empty
    } else if submitted {
        PromptOutcome::Submitted
    } else {
        PromptOutcome::Failed
    }
}

/// What came of asking for the code, from the line that was typed and the answer of
/// the script that entered the code. Without a code no script is run and there is
/// no answer.
pub fn prompt_outcome(line: &str, answer: Option<&JsonObject>) -> (r: PromptOutcome)
    ensures
        r == outcome_of(
            line@,
            answer is Some && json::flag_member(answer->0@, "submitted"@) == Some(true),
        ),
{
    match entered_code(line) {
        None => PromptOutcome::Empty,
        Some(_) => {
            let submitted: bool = match answer {
                Some(a) => code_was_submitted(a),
                None => false,
            };
            if submitted {
                PromptOutcome::Submitted
            } else {
                PromptOutcome::Failed
            }
        },
    }
}

/// A submission is reported only where a code was typed and the page submitted it,
/// and nothing but white space typed is reported as no code.
pub proof fn law_submission_is_real(line: Seq<char>, submitted: bool)
    ensures
        outcome_of(line, submitted) == PromptOutcome::Submitted <==> text::trimmed(line).len() > 0
            && submitted,
        outcome_of(line, submitted) == PromptOutcome::Empty <==> text::trimmed(line).len() == 0,
{
}

/// A script that takes a page somewhere is this assignment, with the literal in it.
pub proof fn law_navigation_script(quoted: Seq<char>)
    ensures
        navigation(quoted) == "() => { window.location.href = "@ + quoted + "; }"@,
{
}

/// The scripts hold the literals that they are given, each in its own place: the
/// label in that which clicks, the code in that which enters it, and in that which
/// fills in the login form the username before the password.
pub proof fn law_scripts_hold_their_literals(a: Seq<char>, b: Seq<char>)
    ensures
        clicking(a) == "() => {\n    const wanted = "@ + a + CLICK_TAIL@,
        code_filling(a) == "() => {\n    const code = "@ + a + CODE_TAIL@,
        form_filling(a, b) == FILL_HEAD@ + a + FILL_MIDDLE@ + b + FILL_TAIL@,
{
}

/// The username that is typed in is the first literal, and the password the second:
/// each stands behind the call that puts it into its own input.
pub proof fn law_form_is_filled_in_order(username: Seq<char>, password: Seq<char>)
    ensures
        text::holds(
            form_filling(username, password),
            "applyValue(usernameInput, "@ + username + ");\n    applyValue(passwordInput, "@,
        ),
        text::holds(
            form_filling(username, password),
            ");\n    applyValue(passwordInput, "@ + password + ");\n    return {"@,
        ),
        exists|front: Seq<char>, behind: Seq<char>|
            form_filling(username, password) == #[trigger] (front + username
                + ");\n    applyValue(passwordInput, "@ + behind),
{
    lemma_username_call();
    reveal_strlit(");\n    return {");
    reveal_strlit(
        ");
    return {
        username: usernameInput.value,
        passwordLength: passwordInput.value.length,
    };
}",
    );
    let script = form_filling(username, password);
    let middle = ");\n    applyValue(passwordInput, "@;
    let end = ");\n    return {"@;
    let rest = FILL_TAIL@.skip(end.len() as int);
    assert(FILL_TAIL@ =~= end + rest);
    let front = FILL_HEAD@ + username;
    assert(script =~= front + (middle + password + end) + rest);
    text::law_holds_is_standing_inside(script, middle + password + end);
    assert(script =~= FILL_HEAD@ + username + middle + (password + FILL_TAIL@));
    let call = "applyValue(usernameInput, "@;
    let lead = FILL_HEAD@.take(FILL_HEAD@.len() - call.len());
    assert(FILL_HEAD@ =~= lead + call);
    assert(script =~= lead + (call + username + middle) + (password + FILL_TAIL@));
    text::law_holds_is_standing_inside(script, call + username + middle);
}

proof fn lemma_username_call()
    ensures
        FILL_HEAD@.len() >= "applyValue(usernameInput, "@.len(),
        FILL_HEAD@.skip(FILL_HEAD@.len() - "applyValue(usernameInput, "@.len())
            == "applyValue(usernameInput, "@,
{
    reveal_strlit("applyValue(usernameInput, ");
    reveal_strlit(
        "() => {
    const usernameInput = document.getElementById('username');
    const passwordInput = document.getElementById('password');
    if (!usernameInput || !passwordInput) {
        throw new Error('Could not find #username or #password inputs');
    }
    const applyValue = (node, value) => {
        node.focus();
        node.value = value;
        const nativeSetter = Object.getOwnPropertyDescriptor(
            window.HTMLInputElement.prototype, 'value'
        ).set;
        nativeSetter.call(node, value);
        node.dispatchEvent(new Event('input', { bubbles: true }));
        node.dispatchEvent(new Event('change', { bubbles: true }));
        node.dispatchEvent(new Event('blur', { bubbles: true }));
    };
    applyValue(usernameInput, ",
    );
    assert(FILL_HEAD@.skip(FILL_HEAD@.len() - "applyValue(usernameInput, "@.len())
        =~= "applyValue(usernameInput, "@);
}

/// What the form held is read from the answer: the username, or nothing where the
/// answer gives none.
pub proof fn law_filled_username(answer: Map<Seq<char>, json::JsonView>, username: Seq<char>)
    ensures
        filled_username(answer.insert("username"@, json::JsonView::Text(username))) == username,
        !answer.contains_key("username"@) || !(answer["username"@] is Text) ==> filled_username(
            answer,
        ).len() == 0,
{
}

/// A code is what trimming leaves of the line, and there is none where nothing is
/// left.
pub proof fn law_code_is_the_trimmed_line(line: Seq<char>)
    ensures
        text::trimmed(line).len() > 0 ==> code_of(line) == Some(text::trimmed(line)),
        text::trimmed(line).len() == 0 ==> code_of(line) is None,
{
}

} // verus!
