//! What a subscriber may call themselves and where mail to them may go.

use vstd::prelude::*;
use vstd::std_specs::iter::IteratorSpec;

verus! {

/// Why a request was refused before anything was stored.
#[derive(Clone, Copy, Debug, PartialEq, Eq, Structural)]
pub enum ValidationError {
    /// The subscriber's name has no characters.
    EmptyName,
    /// The subscriber's name holds a control character.
    ControlCharacterInName,
    /// The address does not follow the address grammar.
    MalformedEmail,
    /// The newsletter has no title.
    EmptyTitle,
    /// The newsletter has no HTML body.
    EmptyHtmlBody,
    /// The newsletter has no plain-text body.
    EmptyTextBody,
}

/// A control character: the C0 range, DEL and the C1 range.
pub open spec fn is_control(c: char) -> bool {
    c as u32 <= 0x1f || 0x7f <= c as u32 <= 0x9f
}

/// Whether no character of `s` is a control character.
pub open spec fn free_of_control(s: Seq<char>) -> bool {
    forall|i: int| 0 <= i < s.len() ==> !is_control(#[trigger] s[i])
}

/// The verdict on a subscriber's name: it must be non-empty and free of
/// control characters.
pub open spec fn name_verdict(s: Seq<char>) -> Result<(), ValidationError> {
    if s.len() == 0 {
        Err(ValidationError::EmptyName)
    } else if !free_of_control(s) {
        Err(ValidationError::ControlCharacterInName)
    } else {
        Ok(())
    }
}

fn char_is_control(c: char) -> (b: bool)
    ensures
        b == is_control(c),
{
    let n: u32 = c as u32;
    n <= 0x1f || (0x7f <= n && n <= 0x9f)
}

/// Scans `s` for a control character.
pub fn has_no_control(s: &str) -> (b: bool)
    ensures
        b == free_of_control(s@),
{
    broadcast use vstd::string::axiom_spec_iter, vstd::string::next_postcondition;
    let mut it = s.chars();
    let ghost mut seen: int = 0;
    loop
        invariant
            0 <= seen <= s@.len(),
            it.obeys_prophetic_iter_laws(),
            it.decrease() is Some,
            it.remaining() == s@.skip(seen),
            forall|i: int| 0 <= i < seen ==> !is_control(#[trigger] s@[i]),
        decreases s@.len() - seen,
    {
        let ghost before = it;
        match it.next() {
            Some(c) => {
                assert(before.remaining().len() > 0);
                assert(c == s@[seen]);
                if char_is_control(c) {
                    return false;
                }
                proof {
                    assert(s@.skip(seen).drop_first() =~= s@.skip(seen + 1));
                    seen = seen + 1;
                }
            },
            None => {
                assert(before.remaining().len() == 0);
                assert(seen == s@.len());
                return true;
            },
        }
    }
}

/// Checks a subscriber's name.
pub fn check_name(s: &str) -> (r: Result<(), ValidationError>)
    ensures
        r == name_verdict(s@),
{
    if s.is_empty() {
        Err(ValidationError::EmptyName)
    } else if !has_no_control(s) {
        Err(ValidationError::ControlCharacterInName)
    } else {
        Ok(())
    }
}

/// The characters of `s`, one element each.
pub fn chars_of(s: &str) -> (v: Vec<char>)
    ensures
        v@ == s@,
{
    broadcast use vstd::string::axiom_spec_iter, vstd::string::next_postcondition;
    let mut v: Vec<char> = Vec::new();
    let mut it = s.chars();
    loop
        invariant
            v@.len() <= s@.len(),
            it.obeys_prophetic_iter_laws(),
            it.decrease() is Some,
            it.remaining() == s@.skip(v@.len() as int),
            v@ == s@.take(v@.len() as int),
        decreases s@.len() - v@.len(),
    {
        let ghost before = it;
        let ghost seen = v@.len() as int;
        match it.next() {
            Some(c) => {
                assert(before.remaining().len() > 0);
                assert(c == s@[seen]);
                v.push(c);
                proof {
                    assert(s@.skip(seen).drop_first() =~= s@.skip(seen + 1));
                    assert(v@ =~= s@.take(seen + 1));
                }
            },
            None => {
                assert(before.remaining().len() == 0);
                assert(v@ =~= s@);
                return v;
            },
        }
    }
}

/// An ASCII letter or digit.
pub open spec fn is_alnum(c: char) -> bool {
    ||| 0x30 <= c as u32 <= 0x39
    ||| 0x41 <= c as u32 <= 0x5a
    ||| 0x61 <= c as u32 <= 0x7a
}

/// A character that may stand before the `@`: a letter, a digit or one of
/// ``.!#$%&'*+/=?^_`{|}~-``.
pub open spec fn is_local_char(c: char) -> bool {
    ||| is_alnum(c)
    ||| c == '.' || c == '!' || c == '#' || c == '$' || c == '%' || c == '&'
    ||| c == '\'' || c == '*' || c == '+' || c == '/' || c == '=' || c == '?'
    ||| c == '^' || c == '_' || c == '`' || c == '{' || c == '|' || c == '}'
    ||| c == '~' || c == '-'
}

/// A character that may stand after the `@`: a letter, a digit, `-` or `.`.
pub open spec fn is_domain_char(c: char) -> bool {
    is_alnum(c) || c == '-' || c == '.'
}

/// Whether the `at` characters before position `at` form a local part: one
/// to 64 characters, each a local character.
pub open spec fn local_part_ok(s: Seq<char>, at: int) -> bool {
    &&& 1 <= at <= 64
    &&& forall|i: int| 0 <= i < at ==> is_local_char(#[trigger] s[i])
}

/// Whether the characters after position `at` form a domain: one to 255
/// domain characters, the first and the last a letter or digit, and every
/// dot between two letters or digits (so no label is empty and none starts
/// or ends with a hyphen).
pub open spec fn domain_ok(s: Seq<char>, at: int) -> bool {
    &&& 1 <= s.len() - at - 1 <= 255
    &&& forall|i: int| at < i < s.len() ==> is_domain_char(#[trigger] s[i])
    &&& is_alnum(s[at + 1])
    &&& is_alnum(s[s.len() - 1])
    &&& forall|i: int|
        at + 1 < i < s.len() - 1 && #[trigger] s[i] == '.' ==> is_alnum(s[i - 1]) && is_alnum(
            s[i + 1],
        )
}

/// Whether position `at` splits `s` into a local part, an `@` and a domain.
pub open spec fn splits_at(s: Seq<char>, at: int) -> bool {
    &&& 0 <= at < s.len()
    &&& s[at] == '@'
    &&& local_part_ok(s, at)
    &&& domain_ok(s, at)
}

/// The address grammar: `local@domain`.
pub open spec fn is_email(s: Seq<char>) -> bool {
    exists|at: int| splits_at(s, at)
}

fn alnum(c: char) -> (b: bool)
    ensures
        b == is_alnum(c),
{
    let n: u32 = c as u32;
    (0x30 <= n && n <= 0x39) || (0x41 <= n && n <= 0x5a) || (0x61 <= n && n <= 0x7a)
}

fn local_char(c: char) -> (b: bool)
    ensures
        b == is_local_char(c),
{
    alnum(c) || c == '.' || c == '!' || c == '#' || c == '$' || c == '%' || c == '&' || c == '\''
        || c == '*' || c == '+' || c == '/' || c == '=' || c == '?' || c == '^' || c == '_' || c
        == '`' || c == '{' || c == '|' || c == '}' || c == '~' || c == '-'
}

fn domain_char(c: char) -> (b: bool)
    ensures
        b == is_domain_char(c),
{
    alnum(c) || c == '-' || c == '.'
}

/// The position of the first `@` in `v`, if it has one.
fn first_at(v: &Vec<char>) -> (r: Option<usize>)
    ensures
        match r {
            Some(a) => a < v@.len() && v@[a as int] == '@' && forall|i: int|
                0 <= i < a ==> #[trigger] v@[i] != '@',
            None => forall|i: int| 0 <= i < v@.len() ==> #[trigger] v@[i] != '@',
        },
{
    let mut i: usize = 0;
    while i < v.len()
        invariant
            0 <= i <= v@.len(),
            forall|j: int| 0 <= j < i ==> #[trigger] v@[j] != '@',
        decreases v@.len() - i,
    {
        if v[i] == '@' {
            return Some(i);
        }
        i = i + 1;
    }
    None
}

fn check_local(v: &Vec<char>, at: usize) -> (b: bool)
    requires
        at < v@.len(),
    ensures
        b == local_part_ok(v@, at as int),
{
    if at < 1 || at > 64 {
        return false;
    }
    let mut i: usize = 0;
    while i < at
        invariant
            0 <= i <= at < v@.len(),
            forall|j: int| 0 <= j < i ==> is_local_char(#[trigger] v@[j]),
        decreases at - i,
    {
        if !local_char(v[i]) {
            return false;
        }
        i = i + 1;
    }
    true
}

fn check_domain(v: &Vec<char>, at: usize) -> (b: bool)
    requires
        at < v@.len(),
    ensures
        b == domain_ok(v@, at as int),
{
    let n: usize = v.len();
    if n - at - 1 < 1 || n - at - 1 > 255 {
        return false;
    }
    if !alnum(v[at + 1]) || !alnum(v[n - 1]) {
        return false;
    }
    let mut i: usize = at + 1;
    while i < n
        invariant
            at < i <= n,
            n == v@.len(),
            forall|j: int| at < j < i ==> is_domain_char(#[trigger] v@[j]),
            forall|j: int|
                at + 1 < j < i && j < n - 1 && #[trigger] v@[j] == '.' ==> is_alnum(v@[j - 1])
                    && is_alnum(v@[j + 1]),
        decreases n - i,
    {
        let c: char = v[i];
        if !domain_char(c) {
            return false;
        }
        if c == '.' && at + 1 < i && i < n - 1 {
            if !alnum(v[i - 1]) || !alnum(v[i + 1]) {
                return false;
            }
        }
        i = i + 1;
    }
    true
}

/// Decides whether `s` follows the address grammar.
pub fn check_email(s: &str) -> (b: bool)
    ensures
        b == is_email(s@),
{
    let v = chars_of(s);
    match first_at(&v) {
        None => false,
        Some(a) => {
            let ok = check_local(&v, a) && check_domain(&v, a);
            proof {
                if ok {
                    assert(splits_at(s@, a as int));
                } else if is_email(s@) {
                    let w = choose|w: int| splits_at(s@, w);
                    if w > a {
                        assert(is_local_char(s@[a as int]));
                    }
                    assert(w == a);
                }
            }
            ok
        },
    }
}

/// An address that follows the grammar.
pub struct SubscriberEmail {
    text: String,
}

impl View for SubscriberEmail {
    type V = Seq<char>;

    closed spec fn view(&self) -> Seq<char> {
        self.text@
    }
}

impl SubscriberEmail {
    /// Every value of this type holds an address that follows the grammar.
    pub closed spec fn wf(&self) -> bool {
        is_email(self.text@)
    }

    /// What is said of a string that is no address.
    pub open spec fn rejection(s: Seq<char>) -> Seq<char> {
        s + " is not a valid subscriber email."@
    }

    /// Accepts `s` if and only if it follows the address grammar.
    pub fn parse(s: String) -> (r: Result<SubscriberEmail, String>)
        ensures
            r is Ok <==> is_email(s@),
            r matches Ok(e) ==> e@ == s@ && e.wf(),
            r matches Err(m) ==> m@ == Self::rejection(s@),
    {
        if check_email(s.as_str()) {
            Ok(SubscriberEmail { text: s })
        } else {
            Err(s.concat(" is not a valid subscriber email."))
        }
    }

    /// The address as text.
    pub fn as_str(&self) -> (s: &str)
        ensures
            s@ == self@,
    {
        self.text.as_str()
    }

    /// The address as an owned string.
    pub fn into_string(self) -> (s: String)
        ensures
            s@ == self@,
    {
        self.text
    }
}

/// A name that is non-empty and free of control characters.
pub struct SubscriberName {
    text: String,
}

impl View for SubscriberName {
    type V = Seq<char>;

    closed spec fn view(&self) -> Seq<char> {
        self.text@
    }
}

impl SubscriberName {
    /// Every value of this type holds an acceptable name.
    pub closed spec fn wf(&self) -> bool {
        name_verdict(self.text@) is Ok
    }

    /// Accepts `s` if and only if it is non-empty and free of control
    /// characters, and says which of the two failed otherwise.
    pub fn parse(s: String) -> (r: Result<SubscriberName, ValidationError>)
        ensures
            r is Ok <==> name_verdict(s@) is Ok,
            r matches Ok(n) ==> n@ == s@ && n.wf(),
            r matches Err(e) ==> name_verdict(s@) == Err::<(), ValidationError>(e),
    {
        match check_name(s.as_str()) {
            Ok(()) => Ok(SubscriberName { text: s }),
            Err(e) => Err(e),
        }
    }

    /// The name as text.
    pub fn as_str(&self) -> (s: &str)
        ensures
            s@ == self@,
    {
        self.text.as_str()
    }

    /// The name as an owned string.
    pub fn into_string(self) -> (s: String)
        ensures
            s@ == self@,
    {
        self.text
    }
}

} // verus!
