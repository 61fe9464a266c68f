//! Field-level validation of submitted form values.

use vstd::prelude::*;

use crate::model::{Message, MessageType};

verus! {

/// Unwraps a validated form field.
pub trait IntoInner<I>: Sized {
    /// The value the wrapper carries.
    spec fn inner_spec(&self) -> I;

    /// Hands the carried value out.
    fn into_inner(self) -> (r: I)
        ensures
            r == self.inner_spec(),
    ;
}

/// Takes the outcome of validating one form field; on failure its messages
/// are collected and a default refill value is handed back.
pub fn handle_form_error<I: Default, T: IntoInner<I>>(
    field: Result<T, Vec<Message>>,
    messages: &mut Vec<Message>,
) -> (r: I)
    ensures
        match field {
            Ok(v) => final(messages)@ == old(messages)@ && r == v.inner_spec(),
            Err(errs) => final(messages)@ == old(messages)@ + errs@,
        },
{
    match field {
        Ok(value) => value.into_inner(),
        Err(mut errs) => {
            messages.append(&mut errs);
            I::default()
        },
    }
}

/// A character allowed in a display name.
pub open spec fn is_name_char(c: char) -> bool {
    ('a' <= c && c <= 'z') || ('A' <= c && c <= 'Z') || ('0' <= c && c <= '9') || c == ' ' || c
        == '\u{e4}' || c == '\u{f6}' || c == '\u{fc}' || c == '\u{df}'
}

/// A display name is accepted when it holds two adjacent allowed characters.
pub open spec fn valid_display_name(s: Seq<char>) -> bool {
    exists|i: int|
        #![trigger s[i]]
        0 <= i && i + 1 < s.len() && is_name_char(s[i]) && is_name_char(s[i + 1])
}

/// A validated display name.
#[derive(Debug)]
pub struct DisplayName(String);

impl IntoInner<String> for DisplayName {
    closed spec fn inner_spec(&self) -> String {
        self.0
    }

    fn into_inner(self) -> String {
        self.0
    }
}

impl DisplayName {
    /// Accepts `value` as a display name or reports why it is rejected.
    #[verifier::loop_isolation(false)]
    pub fn from_value(value: &str) -> (r: Result<DisplayName, Message>)
        ensures
            match r {
                Ok(d) => valid_display_name(value@) && d.inner_spec()@ == value@,
                Err(m) => !valid_display_name(value@) && m.text_key@ == "validation-display-name"@
                    && m.message_type == MessageType::Error,
            },
    {
        let len = value.unicode_len();
        let mut i: usize = 0;
        if len >= 2 {
            while i + 1 < len
                invariant
                    len == value@.len(),
                    i + 1 <= len,
                    forall|j: int|
                        #![trigger value@[j]]
                        0 <= j && j + 1 < i + 1 ==> !(is_name_char(value@[j]) && is_name_char(
                            value@[j + 1],
                        )),
                decreases len - i,
            {
                let a = value.get_char(i);
                let b = value.get_char(i + 1);
                if is_name_char_exec(a) && is_name_char_exec(b) {
                    return Ok(DisplayName(value.to_owned()));
                }
                i += 1;
            }
        }
        Err(
            Message {
                text_key: "validation-display-name".to_owned(),
                message_type: MessageType::Error,
            },
        )
    }
}

/// A character allowed in the local part of an address, besides the dot.
pub open spec fn is_atext(c: char) -> bool {
    ('a' <= c && c <= 'z') || ('0' <= c && c <= '9') || c == '!' || c == '#' || c == '$' || c == '%'
        || c == '&' || c == '\'' || c == '*' || c == '+' || c == '/' || c == '=' || c == '?' || c
        == '^' || c == '_' || c == '`' || c == '{' || c == '|' || c == '}' || c == '~' || c == '-'
}

/// A letter or digit, as allowed at the edges of a domain label.
pub open spec fn is_domain_alnum(c: char) -> bool {
    ('a' <= c && c <= 'z') || ('0' <= c && c <= '9')
}

/// The local part of an address: dot-separated, non-empty atoms of `is_atext`
/// characters.
pub open spec fn valid_local(s: Seq<char>) -> bool {
    &&& s.len() > 0
    &&& s[0] != '.'
    &&& s[s.len() - 1] != '.'
    &&& forall|i: int| #![trigger s[i]] 0 <= i < s.len() ==> is_atext(s[i]) || s[i] == '.'
    &&& forall|i: int| #![trigger s[i]] 0 <= i < s.len() - 1 ==> !(s[i] == '.' && s[i + 1] == '.')
}

/// The domain of an address: at least two dot-separated labels of letters,
/// digits and inner hyphens.
pub open spec fn valid_domain(s: Seq<char>) -> bool {
    &&& s.len() > 0
    &&& is_domain_alnum(s[0])
    &&& is_domain_alnum(s[s.len() - 1])
    &&& forall|i: int|
        #![trigger s[i]]
        0 <= i < s.len() ==> is_domain_alnum(s[i]) || s[i] == '-' || s[i] == '.'
    &&& forall|i: int|
        #![trigger s[i]]
        0 < i < s.len() - 1 && s[i] == '.' ==> is_domain_alnum(s[i - 1]) && is_domain_alnum(
            s[i + 1],
        )
    &&& exists|i: int| #![trigger s[i]] 0 <= i < s.len() && s[i] == '.'
}

/// An address is accepted when it is a valid local part, one `@`, and a
/// valid domain. The whole string must be the address: this is a
/// deliberate subset of the common forms, and quoted local parts
/// (`"a b"@x.y`) and bracketed address literals (`a@[10.0.0.1]`) are not
/// accepted.
pub open spec fn valid_email(s: Seq<char>) -> bool {
    exists|k: int|
        #![trigger s[k]]
        {
            &&& 0 <= k < s.len()
            &&& s[k] == '@'
            &&& forall|j: int| #![trigger s[j]] 0 <= j < s.len() && j != k ==> s[j] != '@'
            &&& valid_local(s.take(k))
            &&& valid_domain(s.skip(k + 1))
        }
}

/// A validated address of a booking party or subscriber.
#[derive(Debug)]
pub struct Email(pub String);

impl IntoInner<String> for Email {
    open spec fn inner_spec(&self) -> String {
        self.0
    }

    fn into_inner(self) -> String {
        self.0
    }
}

impl Email {
    /// Accepts `value` as an address or reports why it is rejected; see
    /// `valid_email` for the exact grammar and its deliberate limits.
    pub fn from_value(value: &str) -> (r: Result<Email, Message>)
        ensures
            match r {
                Ok(e) => valid_email(value@) && e.0@ == value@,
                Err(m) => !valid_email(value@) && m.text_key@ == "validation-email"@
                    && m.message_type == MessageType::Error,
            },
    {
        if check_email(value) {
            Ok(Email(value.to_owned()))
        } else {
            Err(
                Message {
                    text_key: "validation-email".to_owned(),
                    message_type: MessageType::Error,
                },
            )
        }
    }
}

/// Decides `valid_email` on a string.
#[verifier::loop_isolation(false)]
fn check_email(value: &str) -> (r: bool)
    ensures
        r == valid_email(value@),
{
    let ghost s = value@;
    let len = value.unicode_len();
    // Find the unique position of '@'.
    let mut at: usize = 0;
    let mut seen_at: bool = false;
    let mut i: usize = 0;
    while i < len
        invariant
            len == s.len(),
            i <= len,
            seen_at ==> at < i && s[at as int] == '@',
            seen_at ==> forall|j: int| #![trigger s[j]] 0 <= j < i && j != at as int ==> s[j] != '@',
            !seen_at ==> forall|j: int| #![trigger s[j]] 0 <= j < i ==> s[j] != '@',
        decreases len - i,
    {
        if value.get_char(i) == '@' {
            if seen_at {
                assert(s[at as int] == '@' && s[i as int] == '@' && at as int != i as int);
                return false;
            }
            at = i;
            seen_at = true;
        }
        i += 1;
    }
    if !seen_at {
        return false;
    }
    let ghost k = at as int;
    let ghost local = s.take(k);
    let ghost domain = s.skip(k + 1);
    assert(forall|j: int| #![trigger local[j]] 0 <= j < k ==> local[j] == s[j]);
    assert(forall|j: int|
        #![trigger domain[j]]
        0 <= j < domain.len() ==> domain[j] == s[k + 1 + j]);
    // Validate the local part, indices [0, at).
    if at == 0 {
        assert(local.len() == 0);
        return false;
    }
    if value.get_char(0) == '.' || value.get_char(at - 1) == '.' {
        assert(local[0] == s[0] && local[k - 1] == s[k - 1]);
        return false;
    }
    let mut i: usize = 0;
    while i < at
        invariant
            len == s.len(),
            at < len,
            s[at as int] == '@',
            i <= at,
            forall|j: int| #![trigger s[j]] 0 <= j < i ==> is_atext(s[j]) || s[j] == '.',
            forall|j: int|
                #![trigger s[j]]
                0 <= j < i && j + 1 < at as int ==> !(s[j] == '.' && s[j + 1] == '.'),
        decreases at - i,
    {
        let c = value.get_char(i);
        if !is_atext_exec(c) && c != '.' {
            assert(local[i as int] == s[i as int]);
            assert(!valid_local(local));
            return false;
        }
        if c == '.' && i + 1 < at {
            if value.get_char(i + 1) == '.' {
                assert(local[i as int] == s[i as int] && local[i + 1] == s[i + 1]);
                assert(!valid_local(local));
                return false;
            }
        }
        i += 1;
    }
    assert(valid_local(local)) by {
        assert(local[0] == s[0] && local[k - 1] == s[k - 1]);
        assert(forall|j: int| #![trigger local[j]] 0 <= j < k ==> local[j] == s[j]);
    }
    // Validate the domain, indices [at + 1, len).
    let dstart = at + 1;
    if dstart >= len {
        assert(domain.len() == 0);
        return false;
    }
    if !is_domain_alnum_exec(value.get_char(dstart)) || !is_domain_alnum_exec(
        value.get_char(len - 1),
    ) {
        assert(domain[0] == s[k + 1] && domain[domain.len() - 1] == s[len - 1]);
        return false;
    }
    let mut dots: usize = 0;
    let mut i: usize = dstart;
    while i < len
        invariant
            len == s.len(),
            dstart == at + 1,
            at < len,
            dstart < len,
            s[at as int] == '@',
            is_domain_alnum(s[dstart as int]),
            is_domain_alnum(s[len - 1]),
            dstart <= i <= len,
            dots <= i,
            (dots > 0) <==> exists|j: int| #![trigger s[j]] dstart <= j < i && s[j] == '.',
            forall|j: int|
                #![trigger s[j]]
                dstart <= j < i ==> is_domain_alnum(s[j]) || s[j] == '-' || s[j] == '.',
            forall|j: int|
                #![trigger s[j]]
                (dstart as int) < j && j < i && j < len - 1 && s[j] == '.' ==> is_domain_alnum(s[j - 1])
                    && is_domain_alnum(s[j + 1]),
        decreases len - i,
    {
        let c = value.get_char(i);
        if !is_domain_alnum_exec(c) && c != '-' && c != '.' {
            assert(domain[i - dstart] == s[i as int]);
            assert(!valid_domain(domain));
            return false;
        }
        if c == '.' {
            if i > dstart && i + 1 < len {
                let before = value.get_char(i - 1);
                let after = value.get_char(i + 1);
                if !is_domain_alnum_exec(before) || !is_domain_alnum_exec(after) {
                    assert(domain[i - dstart] == s[i as int]);
                    assert(domain[i - dstart - 1] == s[i - 1]);
                    assert(domain[i - dstart + 1] == s[i + 1]);
                    assert(!valid_domain(domain)) by {
                        assert(0 < i - dstart < domain.len() - 1 && domain[i - dstart] == '.');
                    }
                    return false;
                }
            }
            dots += 1;
        }
        i += 1;
    }
    if dots == 0 {
        assert(!valid_domain(domain)) by {
            assert forall|j: int| 0 <= j < domain.len() implies #[trigger] domain[j] != '.' by {
                assert(domain[j] == s[k + 1 + j]);
            }
        }
        return false;
    }
    assert(valid_domain(domain)) by {
        assert(domain[0] == s[k + 1] && domain[domain.len() - 1] == s[len - 1]);
        assert forall|j: int|
            0 < j < domain.len() - 1 && #[trigger] domain[j] == '.' implies is_domain_alnum(
            domain[j - 1],
        ) && is_domain_alnum(domain[j + 1]) by {
            assert(domain[j] == s[k + 1 + j]);
            assert(domain[j - 1] == s[k + j] && domain[j + 1] == s[k + 2 + j]);
        }
        let j = choose|j: int| #![trigger s[j]] dstart <= j < len && s[j] == '.';
        assert(domain[j - dstart] == s[j]);
    }
    assert(valid_email(s)) by {
        assert(s[k] == '@' && valid_local(s.take(k)) && valid_domain(s.skip(k + 1)));
    }
    true
}

/// Decides `is_atext` on one character.
fn is_atext_exec(c: char) -> (r: bool)
    ensures
        r == is_atext(c),
{
    ('a' <= c && c <= 'z') || ('0' <= c && c <= '9') || c == '!' || c == '#' || c == '$' || c == '%'
        || c == '&' || c == '\'' || c == '*' || c == '+' || c == '/' || c == '=' || c == '?' || c
        == '^' || c == '_' || c == '`' || c == '{' || c == '|' || c == '}' || c == '~' || c == '-'
}

/// Decides `is_domain_alnum` on one character.
fn is_domain_alnum_exec(c: char) -> (r: bool)
    ensures
        r == is_domain_alnum(c),
{
    ('a' <= c && c <= 'z') || ('0' <= c && c <= '9')
}

/// Decides `is_name_char` on one character.
fn is_name_char_exec(c: char) -> (r: bool)
    ensures
        r == is_name_char(c),
{
    ('a' <= c && c <= 'z') || ('A' <= c && c <= 'Z') || ('0' <= c && c <= '9') || c == ' ' || c
        == '\u{e4}' || c == '\u{f6}' || c == '\u{fc}' || c == '\u{df}'
}

/// A character allowed in a password.
pub open spec fn is_password_char(c: char) -> bool {
    ('a' <= c && c <= 'z') || ('A' <= c && c <= 'Z') || ('0' <= c && c <= '9')
        || is_password_special(c) || c == '\u{e4}' || c == '\u{f6}' || c == '\u{fc}' || c
        == '\u{df}'
}

/// A special character that a password must contain at least one of.
pub open spec fn is_password_special(c: char) -> bool {
    c == '!' || c == '@' || c == '#' || c == '$' || c == '%' || c == '^' || c == '&' || c == '*'
        || c == '(' || c == ')' || c == '-' || c == '_' || c == ' ' || c == '+' || c == '.'
}

/// Eight allowed password characters in a row, starting at `a`.
pub open spec fn password_window_at(s: Seq<char>, a: int) -> bool {
    forall|j: int| #![trigger s[j]] a <= j < a + 8 ==> is_password_char(s[j])
}

/// A password is accepted when it holds eight adjacent allowed characters
/// and at least one upper-case letter, lower-case letter, digit and special
/// character.
pub open spec fn valid_password(s: Seq<char>) -> bool {
    &&& exists|a: int| 0 <= a && a + 8 <= s.len() && #[trigger] password_window_at(s, a)
    &&& exists|j: int| #![trigger s[j]] 0 <= j < s.len() && 'A' <= s[j] && s[j] <= 'Z'
    &&& exists|j: int| #![trigger s[j]] 0 <= j < s.len() && 'a' <= s[j] && s[j] <= 'z'
    &&& exists|j: int| #![trigger s[j]] 0 <= j < s.len() && '0' <= s[j] && s[j] <= '9'
    &&& exists|j: int| #![trigger s[j]] 0 <= j < s.len() && is_password_special(s[j])
}

/// A validated password.
#[derive(Debug)]
pub struct Password(String);

impl IntoInner<String> for Password {
    closed spec fn inner_spec(&self) -> String {
        self.0
    }

    fn into_inner(self) -> String {
        self.0
    }
}

impl Password {
    /// Accepts `value` as a password or reports why it is rejected.
    #[verifier::loop_isolation(false)]
    #[verifier::rlimit(50)]
    pub fn from_value(value: &str) -> (r: Result<Password, Message>)
        ensures
            match r {
                Ok(p) => valid_password(value@) && p.inner_spec()@ == value@,
                Err(m) => !valid_password(value@) && m.text_key@ == "validation-password"@
                    && m.message_type == MessageType::Error,
            },
    {
        let len = value.unicode_len();
        let mut has_upper: bool = false;
        let mut has_lower: bool = false;
        let mut has_digit: bool = false;
        let mut has_special: bool = false;
        let mut i: usize = 0;
        while i < len
            invariant
                len == value@.len(),
                i <= len,
                has_upper <==> exists|j: int|
                    #![trigger value@[j]]
                    0 <= j < i && 'A' <= value@[j] && value@[j] <= 'Z',
                has_lower <==> exists|j: int|
                    #![trigger value@[j]]
                    0 <= j < i && 'a' <= value@[j] && value@[j] <= 'z',
                has_digit <==> exists|j: int|
                    #![trigger value@[j]]
                    0 <= j < i && '0' <= value@[j] && value@[j] <= '9',
                has_special <==> exists|j: int| #![trigger value@[j]] 0 <= j < i && is_password_special(
                    value@[j],
                ),
            decreases len - i,
        {
            let c = value.get_char(i);
            if 'A' <= c && c <= 'Z' {
                has_upper = true;
            }
            if 'a' <= c && c <= 'z' {
                has_lower = true;
            }
            if '0' <= c && c <= '9' {
                has_digit = true;
            }
            if is_password_special_exec(c) {
                has_special = true;
            }
            i += 1;
        }
        let mut has_run: bool = false;
        if len >= 8 {
            let mut a: usize = 0;
            while !has_run && a <= len - 8
                invariant
                    len == value@.len(),
                    a + 8 <= len + 1,
                    has_run ==> exists|b: int|
                        0 <= b && b + 8 <= len && #[trigger] password_window_at(value@, b),
                    !has_run ==> forall|b: int|
                        0 <= b < a ==> !(#[trigger] password_window_at(value@, b)),
                decreases len - a + (if has_run { 0int } else { 1int }),
            {
                has_run = password_window(value, a);
                if !has_run {
                    a += 1;
                }
            }
        }
        if has_run && has_upper && has_lower && has_digit && has_special {
            Ok(Password(value.to_owned()))
        } else {
            Err(
                Message {
                    text_key: "validation-password".to_owned(),
                    message_type: MessageType::Error,
                },
            )
        }
    }
}

/// Decides whether the eight characters starting at `a` are all allowed in a
/// password.
#[verifier::loop_isolation(false)]
fn password_window(value: &str, a: usize) -> (r: bool)
    requires
        a + 8 <= value@.len(),
        value@.len() <= usize::MAX,
    ensures
        r == password_window_at(value@, a as int),
{
    let mut j: usize = 0;
    while j < 8
        invariant
            a + 8 <= value@.len(),
            j <= 8,
            forall|t: int| #![trigger value@[t]] a <= t < a + j ==> is_password_char(value@[t]),
        decreases 8 - j,
    {
        if !is_password_char_exec(value.get_char(a + j)) {
            return false;
        }
        j += 1;
    }
    true
}

/// Decides `is_password_special` on one character.
fn is_password_special_exec(c: char) -> (r: bool)
    ensures
        r == is_password_special(c),
{
    c == '!' || c == '@' || c == '#' || c == '$' || c == '%' || c == '^' || c == '&' || c == '*'
        || c == '(' || c == ')' || c == '-' || c == '_' || c == ' ' || c == '+' || c == '.'
}

/// Decides `is_password_char` on one character.
fn is_password_char_exec(c: char) -> (r: bool)
    ensures
        r == is_password_char(c),
{
    ('a' <= c && c <= 'z') || ('A' <= c && c <= 'Z') || ('0' <= c && c <= '9')
        || is_password_special_exec(c) || c == '\u{e4}' || c == '\u{f6}' || c == '\u{fc}' || c
        == '\u{df}'
}

/// A selected value from a form's choice list; only emptiness is rejected.
#[derive(Debug)]
pub struct SelectString(pub String);

impl IntoInner<String> for SelectString {
    open spec fn inner_spec(&self) -> String {
        self.0
    }

    fn into_inner(self) -> String {
        self.0
    }
}

impl SelectString {
    /// Accepts `value` as a selection or reports that none was made.
    pub fn from_value(value: &str) -> (r: Result<SelectString, Message>)
        ensures
            match r {
                Ok(v) => value@.len() > 0 && v.0@ == value@,
                Err(m) => value@.len() == 0 && m.text_key@ == "validation-select"@
                    && m.message_type == MessageType::Error,
            },
    {
        if value.unicode_len() > 0 {
            Ok(SelectString(value.to_owned()))
        } else {
            Err(
                Message {
                    text_key: "validation-select".to_owned(),
                    message_type: MessageType::Error,
                },
            )
        }
    }
}

} // verus!

use vstd::prelude::*;

use crate::util::is_digit;

verus! {

/// Whether a year has a leap day.
pub open spec fn spec_is_leap_year(y: int) -> bool {
    y % 4 == 0 && (y % 100 != 0 || y % 400 == 0)
}

/// The days of a year.
pub open spec fn spec_days_in_year(y: int) -> int {
    if spec_is_leap_year(y) {
        366
    } else {
        365
    }
}

/// The days of a month.
pub open spec fn spec_days_in_month(y: int, m: int) -> int {
    if m == 2 {
        if spec_is_leap_year(y) {
            29
        } else {
            28
        }
    } else if m == 4 || m == 6 || m == 9 || m == 11 {
        30
    } else {
        31
    }
}

/// The days from the start of the epoch to the start of year `y`.
pub open spec fn spec_days_before_year(y: int) -> int
    decreases y - 1970,
{
    if y <= 1970 {
        0
    } else {
        spec_days_before_year(y - 1) + spec_days_in_year(y - 1)
    }
}

/// The days from the start of the year to the start of month `m`.
pub open spec fn spec_days_before_month(y: int, m: int) -> int
    decreases m,
{
    if m <= 1 {
        0
    } else {
        spec_days_before_month(y, m - 1) + spec_days_in_month(y, m - 1)
    }
}

/// A civil date and time of day, as minutes since the start of the epoch.
pub open spec fn spec_civil_to_minute(y: int, m: int, d: int, hh: int, mm: int) -> int {
    (spec_days_before_year(y) + spec_days_before_month(y, m) + d - 1) * 1440 + hh * 60 + mm
}

/// A representable civil date and time of day: the unsigned minute count
/// starts at 1970, and four year digits end at 9999.
pub open spec fn spec_valid_civil(y: int, m: int, d: int, hh: int, mm: int) -> bool {
    &&& 1970 <= y <= 9999
    &&& 1 <= m <= 12
    &&& 1 <= d <= spec_days_in_month(y, m)
    &&& 0 <= hh <= 23
    &&& 0 <= mm <= 59
}

/// The value of the digit at position `i`.
pub open spec fn spec_digit_at(s: Seq<char>, i: int) -> int {
    s[i] as int - '0' as int
}

/// The shape a browser's datetime-local control submits: four year digits,
/// then month, day, hour and minute, with their separators.
pub open spec fn spec_browser_shape(s: Seq<char>) -> bool {
    &&& s.len() == 16
    &&& is_digit(s[0]) && is_digit(s[1]) && is_digit(s[2]) && is_digit(s[3])
    &&& s[4] == '-'
    &&& is_digit(s[5]) && is_digit(s[6])
    &&& s[7] == '-'
    &&& is_digit(s[8]) && is_digit(s[9])
    &&& s[10] == 'T'
    &&& is_digit(s[11]) && is_digit(s[12])
    &&& s[13] == ':'
    &&& is_digit(s[14]) && is_digit(s[15])
}

/// The year field of a well-shaped input.
pub open spec fn spec_field_year(s: Seq<char>) -> int {
    spec_digit_at(s, 0) * 1000 + spec_digit_at(s, 1) * 100 + spec_digit_at(s, 2) * 10
        + spec_digit_at(s, 3)
}

/// The month field of a well-shaped input.
pub open spec fn spec_field_month(s: Seq<char>) -> int {
    spec_digit_at(s, 5) * 10 + spec_digit_at(s, 6)
}

/// The day field of a well-shaped input.
pub open spec fn spec_field_day(s: Seq<char>) -> int {
    spec_digit_at(s, 8) * 10 + spec_digit_at(s, 9)
}

/// The hour field of a well-shaped input.
pub open spec fn spec_field_hour(s: Seq<char>) -> int {
    spec_digit_at(s, 11) * 10 + spec_digit_at(s, 12)
}

/// The minute field of a well-shaped input.
pub open spec fn spec_field_minute(s: Seq<char>) -> int {
    spec_digit_at(s, 14) * 10 + spec_digit_at(s, 15)
}

/// A datetime input is accepted when it has the browser shape and names a
/// representable date.
pub open spec fn spec_valid_datetime(s: Seq<char>) -> bool {
    spec_browser_shape(s) && spec_valid_civil(
        spec_field_year(s),
        spec_field_month(s),
        spec_field_day(s),
        spec_field_hour(s),
        spec_field_minute(s),
    )
}

/// The days before a year grow at most 366 per year.
pub proof fn lemma_days_before_year_bound(y: int)
    requires
        1970 <= y,
    ensures
        0 <= spec_days_before_year(y) <= 366 * (y - 1970),
    decreases y - 1970,
{
    if y > 1970 {
        lemma_days_before_year_bound(y - 1);
    }
}

/// The days before a month grow at most 31 per month.
pub proof fn lemma_days_before_month_bound(y: int, m: int)
    requires
        1 <= m <= 12,
    ensures
        0 <= spec_days_before_month(y, m) <= 31 * (m - 1),
    decreases m,
{
    if m > 1 {
        lemma_days_before_month_bound(y, m - 1);
    }
}

/// A validated date and time, held as minutes since the start of the
/// epoch in the organisation's local time.
#[derive(Debug)]
pub struct FormDateTime(u64);

impl IntoInner<u64> for FormDateTime {
    closed spec fn inner_spec(&self) -> u64 {
        self.0
    }

    fn into_inner(self) -> u64 {
        self.0
    }
}

/// Decides `spec_is_leap_year`.
fn is_leap_year(y: u64) -> (r: bool)
    ensures
        r == spec_is_leap_year(y as int),
{
    y % 4 == 0 && (y % 100 != 0 || y % 400 == 0)
}

/// Computes `spec_days_in_month`.
fn days_in_month(y: u64, m: u64) -> (r: u64)
    ensures
        r as int == spec_days_in_month(y as int, m as int),
{
    if m == 2 {
        if is_leap_year(y) {
            29
        } else {
            28
        }
    } else if m == 4 || m == 6 || m == 9 || m == 11 {
        30
    } else {
        31
    }
}

/// Reads the digit at a position of a well-shaped input.
fn digit_at(value: &str, i: usize) -> (d: u64)
    requires
        i < value@.len(),
        is_digit(value@[i as int]),
    ensures
        d as int == spec_digit_at(value@, i as int),
        d <= 9,
{
    let c = value.get_char(i);
    (c as u32 - '0' as u32) as u64
}

impl FormDateTime {
    /// Accepts a browser datetime value or reports why it is rejected.
    /// Only the zero-padded sixteen-character shape a datetime-local
    /// control submits is accepted, and the minute count is unsigned, so
    /// years before 1970 are rejected with the other malformed inputs.
    /// Times are naive local minutes: daylight-saving ambiguity is not
    /// modelled.
    #[verifier::loop_isolation(false)]
    pub fn from_value(value: &str) -> (r: Result<FormDateTime, Message>)
        ensures
            match r {
                Ok(f) => spec_valid_datetime(value@) && f.inner_spec() as int
                    == spec_civil_to_minute(
                    spec_field_year(value@),
                    spec_field_month(value@),
                    spec_field_day(value@),
                    spec_field_hour(value@),
                    spec_field_minute(value@),
                ),
                Err(m) => !spec_valid_datetime(value@) && m.text_key@ == "validation-date"@
                    && m.message_type == MessageType::Error,
            },
    {
        let reject = Message {
            text_key: "validation-date".to_owned(),
            message_type: MessageType::Error,
        };
        if value.unicode_len() != 16 {
            return Err(reject);
        }
        // Shape: digits and separators in their fixed positions.
        let mut i: usize = 0;
        while i < 16
            invariant
                i <= 16,
                value@.len() == 16,
                forall|j: int|
                    0 <= j < i && j != 4 && j != 7 && j != 10 && j != 13 ==> is_digit(
                        #[trigger] value@[j],
                    ),
            decreases 16 - i,
        {
            if i != 4 && i != 7 && i != 10 && i != 13 {
                let c = value.get_char(i);
                if !('0' <= c && c <= '9') {
                    return Err(reject);
                }
            }
            i += 1;
        }
        if value.get_char(4) != '-' || value.get_char(7) != '-' || value.get_char(10) != 'T'
            || value.get_char(13) != ':' {
            return Err(reject);
        }
        let y = digit_at(value, 0) * 1000 + digit_at(value, 1) * 100 + digit_at(value, 2) * 10
            + digit_at(value, 3);
        let m = digit_at(value, 5) * 10 + digit_at(value, 6);
        let d = digit_at(value, 8) * 10 + digit_at(value, 9);
        let hh = digit_at(value, 11) * 10 + digit_at(value, 12);
        let mm = digit_at(value, 14) * 10 + digit_at(value, 15);
        if y < 1970 || m < 1 || m > 12 || d < 1 || d > days_in_month(y, m) || hh > 23 || mm > 59 {
            return Err(reject);
        }
        // Days since the epoch: whole years, then whole months, then days.
        let mut days: u64 = 0;
        let mut year: u64 = 1970;
        while year < y
            invariant
                1970 <= year <= y,
                y <= 9999,
                days as int == spec_days_before_year(year as int),
                days as int <= 366 * (year as int - 1970),
            decreases y - year,
        {
            days = days + if is_leap_year(year) {
                366
            } else {
                365
            };
            year += 1;
        }
        proof {
            lemma_days_before_year_bound(y as int);
        }
        let mut month: u64 = 1;
        while month < m
            invariant
                1 <= month <= m,
                m <= 12,
                days as int == spec_days_before_year(y as int) + spec_days_before_month(
                    y as int,
                    month as int,
                ),
                days as int <= 366 * (y as int - 1970) + 31 * (month as int - 1),
            decreases m - month,
        {
            days = days + days_in_month(y, month);
            month += 1;
        }
        let minutes = (days + (d - 1) as u64) * 1440 + hh * 60 + mm;
        Ok(FormDateTime(minutes))
    }
}

} // verus!
