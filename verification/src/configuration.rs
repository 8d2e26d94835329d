//! The settings of the application and what is computed from them.

use vstd::prelude::*;
use crate::domain::{is_email, SubscriberEmail};
use std::time::Duration;

verus! {

/// What `str::to_lowercase` makes of a string.
pub uninterp spec fn lowercased(s: Seq<char>) -> Seq<char>;

/// The duration that `Duration::from_millis` makes of a number of
/// milliseconds.
pub uninterp spec fn millis_as_duration(millis: u64) -> Duration;

/// Calls `str::to_lowercase`. The result is the lower-case form of the
/// argument under Unicode's rules, which depends on the argument alone; the
/// contract gives it its name and claims nothing else.
#[verifier::external_body]
fn to_lowercase(s: &str) -> (r: String)
    ensures
        r@ == lowercased(s@),
{
    s.to_lowercase()
}

/// `Duration::from_millis`: the duration of that many milliseconds. It
/// depends on the argument alone; the contract gives it its name and claims
/// nothing else.
pub assume_specification[ Duration::from_millis ](millis: u64) -> (d: Duration)
    ensures
        d == millis_as_duration(millis),
;

/// Where the application runs.
#[derive(Clone, Copy, Debug, PartialEq, Eq, Structural)]
pub enum Environment {
    Local,
    Production,
}

/// What is said of a name that is no environment.
pub open spec fn unsupported(name: Seq<char>) -> Seq<char> {
    name + " is not a supported environment. Use either `local` or `production`."@
}

/// The environment that a lower-case name stands for.
pub open spec fn environment_named(lowered: Seq<char>) -> Result<Environment, Seq<char>> {
    if lowered == "local"@ {
        Ok(Environment::Local)
    } else if lowered == "production"@ {
        Ok(Environment::Production)
    } else {
        Err(unsupported(lowered))
    }
}

/// An environment or a refusal, as a mathematical value.
pub open spec fn environment_view(r: Result<Environment, String>) -> Result<
    Environment,
    Seq<char>,
> {
    match r {
        Ok(e) => Ok(e),
        Err(m) => Err(m@),
    }
}

impl Environment {
    /// The name of the environment.
    pub open spec fn name(self) -> Seq<char> {
        match self {
            Environment::Local => "local"@,
            Environment::Production => "production"@,
        }
    }

    /// The name of the environment, as it stands in file names.
    pub fn as_str(&self) -> (s: &'static str)
        ensures
            s@ == self.name(),
    {
        match self {
            Environment::Local => "local",
            Environment::Production => "production",
        }
    }

    /// The environment that a name in lower case stands for: `local` or
    /// `production`. Any other name is refused, with a message that repeats
    /// it.
    pub fn from_lowercase(lowered: String) -> (r: Result<Environment, String>)
        ensures
            environment_view(r) == environment_named(lowered@),
    {
        if lowered == String::from_str("local") {
            Ok(Environment::Local)
        } else if lowered == String::from_str("production") {
            Ok(Environment::Production)
        } else {
            Err(
                lowered.concat(
                    " is not a supported environment. Use either `local` or `production`.",
                ),
            )
        }
    }

    /// The settings file of the environment: `configuration/` and its name.
    pub fn settings_file(&self) -> (path: String)
        ensures
            path@ == "configuration/"@ + self.name(),
    {
        String::from_str("configuration/").concat(self.as_str())
    }
}

impl Environment {
    /// The environment that a name stands for, whatever the case of its
    /// letters: the name is put in lower case and then read as
    /// `from_lowercase` reads it.
    pub fn try_from(s: String) -> (r: Result<Environment, String>)
        ensures
            environment_view(r) == environment_named(lowercased(s@)),
    {
        Environment::from_lowercase(to_lowercase(s.as_str()))
    }
}

/// The decimal digit for a value below ten.
pub open spec fn decimal_digit(d: nat) -> char {
    if d == 0 { '0' } else if d == 1 { '1' } else if d == 2 { '2' } else if d == 3 { '3' }
    else if d == 4 { '4' } else if d == 5 { '5' } else if d == 6 { '6' } else if d == 7 { '7' }
    else if d == 8 { '8' } else { '9' }
}

/// A number in decimal, without leading zeros.
pub open spec fn decimal(n: nat) -> Seq<char>
    decreases n,
{
    if n < 10 {
        seq![decimal_digit(n)]
    } else {
        decimal(n / 10).push(decimal_digit(n % 10))
    }
}

fn decimal_digit_text(d: u16) -> (s: &'static str)
    requires
        d < 10,
    ensures
        s@ == seq![decimal_digit(d as nat)],
{
    proof {
        reveal_strlit("0"); reveal_strlit("1"); reveal_strlit("2"); reveal_strlit("3");
        reveal_strlit("4"); reveal_strlit("5"); reveal_strlit("6"); reveal_strlit("7");
        reveal_strlit("8"); reveal_strlit("9");
    }
    let s = if d == 0 { "0" } else if d == 1 { "1" } else if d == 2 { "2" } else if d == 3 { "3" }
    else if d == 4 { "4" } else if d == 5 { "5" } else if d == 6 { "6" } else if d == 7 { "7" }
    else if d == 8 { "8" } else { "9" };
    assert(s@ =~= seq![decimal_digit(d as nat)]);
    s
}

/// Writes a port number in decimal.
pub fn port_text(n: u16) -> (s: String)
    ensures
        s@ == decimal(n as nat),
    decreases n,
{
    if n < 10 {
        String::from_str(decimal_digit_text(n))
    } else {
        let s = port_text(n / 10).concat(decimal_digit_text(n % 10));
        assert(s@ =~= decimal(n as nat));
        s
    }
}

/// Where the application listens.
#[derive(Clone, Debug)]
pub struct ApplicationSettings {
    pub port: u16,
    pub host: String,
}

impl ApplicationSettings {
    /// The address to bind: the host, a colon, and the port in decimal.
    pub fn address(&self) -> (a: String)
        ensures
            a@ == self.host@ + ":"@ + decimal(self.port as nat),
    {
        let port = port_text(self.port);
        self.host.clone().concat(":").concat(port.as_str())
    }
}

/// How to reach the database.
#[derive(Clone)]
pub struct DatabaseSettings {
    pub username: String,
    pub password: String,
    pub port: u16,
    pub host: String,
    pub database_name: String,
    pub require_ssl: bool,
}

/// The options of one connection to the database server.
#[derive(Clone)]
pub struct ConnectOptions {
    pub host: String,
    pub username: String,
    pub password: String,
    pub port: u16,
    /// The database to open; none to reach the server alone.
    pub database: Option<String>,
    /// Whether every statement is logged at trace level.
    pub trace_statements: bool,
}

/// Connection options as a mathematical value.
pub struct ConnectOptionsView {
    pub host: Seq<char>,
    pub username: Seq<char>,
    pub password: Seq<char>,
    pub port: u16,
    pub database: Option<Seq<char>>,
    pub trace_statements: bool,
}

impl View for ConnectOptions {
    type V = ConnectOptionsView;

    open spec fn view(&self) -> ConnectOptionsView {
        ConnectOptionsView {
            host: self.host@,
            username: self.username@,
            password: self.password@,
            port: self.port,
            database: match self.database {
                Some(d) => Some(d@),
                None => None,
            },
            trace_statements: self.trace_statements,
        }
    }
}

impl DatabaseSettings {
    /// The options for a connection to the server that opens no database.
    pub fn without_db(&self) -> (o: ConnectOptions)
        ensures
            o@ == (ConnectOptionsView {
                host: self.host@,
                username: self.username@,
                password: self.password@,
                port: self.port,
                database: None,
                trace_statements: false,
            }),
    {
        ConnectOptions {
            host: self.host.clone(),
            username: self.username.clone(),
            password: self.password.clone(),
            port: self.port,
            database: None,
            trace_statements: false,
        }
    }

    /// The options for a connection that opens the configured database and
    /// logs its statements at trace level.
    pub fn with_db(&self) -> (o: ConnectOptions)
        ensures
            o@ == (ConnectOptionsView {
                database: Some(self.database_name@),
                trace_statements: true,
                ..self.without_db_view()
            }),
    {
        let mut options = self.without_db();
        options.database = Some(self.database_name.clone());
        options.trace_statements = true;
        options
    }

    /// What `without_db` answers, as a mathematical value.
    pub open spec fn without_db_view(&self) -> ConnectOptionsView {
        ConnectOptionsView {
            host: self.host@,
            username: self.username@,
            password: self.password@,
            port: self.port,
            database: None,
            trace_statements: false,
        }
    }
}

/// How to reach the mail provider.
#[derive(Clone)]
pub struct EmailClientSettings {
    pub base_url: String,
    pub sender_email: String,
    pub authorization_token: String,
    pub timeout_milliseconds: u64,
}

impl EmailClientSettings {
    /// The sender's address, if the configured one follows the address
    /// grammar.
    pub fn sender(&self) -> (r: Result<SubscriberEmail, String>)
        ensures
            r is Ok <==> is_email(self.sender_email@),
            r matches Ok(e) ==> e@ == self.sender_email@ && e.wf(),
            r matches Err(m) ==> m@ == SubscriberEmail::rejection(self.sender_email@),
    {
        SubscriberEmail::parse(self.sender_email.clone())
    }

    /// How long a call to the mail provider may take.
    pub fn timeout(&self) -> (d: Duration)
        ensures
            d == millis_as_duration(self.timeout_milliseconds),
    {
        Duration::from_millis(self.timeout_milliseconds)
    }
}

/// All settings.
#[derive(Clone)]
pub struct Settings {
    pub database: DatabaseSettings,
    pub application: ApplicationSettings,
    pub email_client: EmailClientSettings,
}

} // verus!
