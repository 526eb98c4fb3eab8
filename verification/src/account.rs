//! Player accounts: the table of users with their password hashes and
//! characters, and the login conversation that a new connection goes
//! through.
//!
//! The conversation is a state machine: [`login_step`] takes the state of
//! a connection and the line it sent, and gives the next state, what to
//! send back, and what became of the login.

use crate::text::{trim, trimmed};
use vstd::prelude::*;

verus! {

/// The outcome of `bcrypt::verify` on a password and a stored hash:
/// `Some(matches)`, or `None` where the hash cannot be read.
pub uninterp spec fn bcrypt_verify_outcome(password: Seq<char>, hash: Seq<char>) -> Option<bool>;

/// `bcrypt::verify`: whether `password` matches the stored `hash`; an
/// unreadable hash (`BcryptError`) gives `None`. The outcome depends on the
/// password and the hash alone.
#[verifier::external_body]
fn bcrypt_verify(password: &String, hash: &String) -> (r: Option<bool>)
    ensures
        r == bcrypt_verify_outcome(password@, hash@),
{
    match bcrypt::verify(password.as_bytes(), hash.as_str()) {
        Ok(b) => Some(b),
        Err(_) => None,
    }
}

/// `bcrypt::hash` at cost 4, the cost that the game uses. The salt is
/// random, so the hash itself is not stated; what its source shows is that
/// a hash it makes verifies against the password it was made from. It
/// fails only when the system gives no randomness.
#[verifier::external_body]
fn bcrypt_hash(password: &String) -> (r: Option<String>)
    ensures
        r matches Some(h) ==> bcrypt_verify_outcome(password@, h@) == Some(true),
{
    bcrypt::hash(password.as_bytes(), 4).ok()
}

/// A registered user: the hash of the password and the character played.
#[derive(Debug)]
pub struct UserEntry {
    pub hashed_password: String,
    pub character: u64,
}

impl UserEntry {
    /// The hash and the character id.
    pub open spec fn view_spec(&self) -> (Seq<char>, u64) {
        (self.hashed_password@, self.character)
    }
}

/// No name occurs twice.
pub open spec fn names_distinct(users: Seq<(String, UserEntry)>) -> bool {
    forall|i: int, j: int|
        0 <= i < j < users.len() ==> #[trigger] users[i].0@ != #[trigger] users[j].0@
}

/// The users of the game, by name.
#[derive(Debug)]
pub struct UserDb {
    users: Vec<(String, UserEntry)>,
}

impl UserDb {
    #[verifier::type_invariant]
    spec fn distinct_names(self) -> bool {
        names_distinct(self.users@)
    }

    /// Each user name with the hash and character of its entry.
    pub closed spec fn users_map(&self) -> Map<Seq<char>, (Seq<char>, u64)> {
        Map::new(
            |n: Seq<char>| exists|i: int| 0 <= i < self.users@.len() && self.users@[i].0@ == n,
            |n: Seq<char>|
                {
                    let i = choose|i: int| 0 <= i < self.users@.len() && self.users@[i].0@ == n;
                    self.users@[i].1.view_spec()
                },
        )
    }

    /// A table with no users.
    pub fn new() -> (db: UserDb)
        ensures
            db.users_map() == Map::<Seq<char>, (Seq<char>, u64)>::empty(),
    {
        let db = UserDb { users: Vec::new() };
        assert(db.users_map() =~= Map::<Seq<char>, (Seq<char>, u64)>::empty());
        db
    }

    fn index_of(&self, name: &String) -> (r: Option<usize>)
        ensures
            match r {
                Some(i) => i < self.users@.len() && self.users@[i as int].0@ == name@,
                None => forall|i: int| 0 <= i < self.users@.len() ==> self.users@[i].0@ != name@,
            },
    {
        let mut i: usize = 0;
        while i < self.users.len()
            invariant
                i <= self.users@.len(),
                forall|k: int| 0 <= k < i ==> self.users@[k].0@ != name@,
            decreases self.users@.len() - i,
        {
            if self.users[i].0 == *name {
                return Some(i);
            }
            i = i + 1;
        }
        None
    }

    proof fn lemma_lookup(&self, i: int)
        requires
            0 <= i < self.users@.len(),
            names_distinct(self.users@),
        ensures
            self.users_map().dom().contains(self.users@[i].0@),
            self.users_map()[self.users@[i].0@] == self.users@[i].1.view_spec(),
    {
        let n = self.users@[i].0@;
        let j = choose|j: int| 0 <= j < self.users@.len() && self.users@[j].0@ == n;
        assert(j == i);
    }

    /// Whether `name` is registered.
    pub fn contains(&self, name: &String) -> (b: bool)
        ensures
            b == self.users_map().dom().contains(name@),
    {
        match self.index_of(name) {
            Some(i) => {
                proof {
                    use_type_invariant(self);
                    self.lemma_lookup(i as int);
                }
                true
            },
            None => false,
        }
    }

    /// The entry of `name`, if it is registered.
    pub fn get(&self, name: &String) -> (r: Option<&UserEntry>)
        ensures
            match r {
                Some(e) => self.users_map().dom().contains(name@) && self.users_map()[name@]
                    == e.view_spec(),
                None => !self.users_map().dom().contains(name@),
            },
    {
        match self.index_of(name) {
            Some(i) => {
                proof {
                    use_type_invariant(self);
                    self.lemma_lookup(i as int);
                }
                Some(&self.users[i].1)
            },
            None => None,
        }
    }

    /// Registers `name` with `entry`, in place of an entry it had.
    pub fn insert(&mut self, name: String, entry: UserEntry)
        ensures
            final(self).users_map() == old(self).users_map().insert(name@, entry.view_spec()),
    {
        proof {
            use_type_invariant(&*self);
        }
        let ghost v = entry.view_spec();
        let ghost n = name@;
        let ghost before = self.users_map();
        let found = self.index_of(&name);
        match found {
            Some(i) => {
                let mut users = Vec::new();
                std::mem::swap(&mut users, &mut self.users);
                let ghost old_users = users@;
                users.set(i, (name, entry));
                proof {
                    assert forall|a: int, b: int|
                        0 <= a < b < users@.len() implies #[trigger] users@[a].0@ != #[trigger] users@[b].0@ by {
                        if a != i && b != i {
                            assert(users@[a] == old_users[a] && users@[b] == old_users[b]);
                        } else if a == i {
                            assert(users@[b] == old_users[b]);
                            assert(old_users[i as int].0@ == n);
                        } else {
                            assert(users@[a] == old_users[a]);
                            assert(old_users[i as int].0@ == n);
                        }
                    }
                }
                self.users = users;
                proof {
                    use_type_invariant(&*self);
                    let after = self.users_map();
                    assert forall|k: Seq<char>| #[trigger] after.dom().contains(k) <==> before.insert(n, v).dom().contains(k) by {
                        if k == n {
                            assert(self.users@[i as int].0@ == n);
                        } else {
                            if after.dom().contains(k) {
                                let j = choose|j: int| 0 <= j < self.users@.len() && self.users@[j].0@ == k;
                                assert(old_users[j].0@ == k);
                            }
                            if before.dom().contains(k) {
                                let j = choose|j: int| 0 <= j < old_users.len() && old_users[j].0@ == k;
                                assert(self.users@[j].0@ == k);
                            }
                        }
                    }
                    assert forall|k: Seq<char>| #[trigger] after.dom().contains(k) implies after[k] == before.insert(n, v)[k] by {
                        let j = choose|j: int| 0 <= j < self.users@.len() && self.users@[j].0@ == k;
                        self.lemma_lookup(j);
                        if k != n {
                            assert(j != i);
                            assert(old_users[j] == self.users@[j]);
                            let jj = choose|jj: int| 0 <= jj < old_users.len() && old_users[jj].0@ == k;
                            assert(jj == j);
                        } else {
                            assert(j == i);
                        }
                    }
                    assert(after =~= before.insert(n, v));
                }
            },
            None => {
                let mut users = Vec::new();
                std::mem::swap(&mut users, &mut self.users);
                let ghost old_users = users@;
                users.push((name, entry));
                proof {
                    assert forall|a: int, b: int|
                        0 <= a < b < users@.len() implies #[trigger] users@[a].0@ != #[trigger] users@[b].0@ by {
                        assert(users@[a] == old_users[a]);
                        if b < old_users.len() {
                            assert(users@[b] == old_users[b]);
                        }
                    }
                }
                self.users = users;
                proof {
                    use_type_invariant(&*self);
                    let after = self.users_map();
                    let last = old_users.len() as int;
                    assert forall|k: Seq<char>| #[trigger] after.dom().contains(k) <==> before.insert(n, v).dom().contains(k) by {
                        if k == n {
                            assert(self.users@[last].0@ == n);
                        } else {
                            if after.dom().contains(k) {
                                let j = choose|j: int| 0 <= j < self.users@.len() && self.users@[j].0@ == k;
                                assert(j != last);
                                assert(old_users[j].0@ == k);
                            }
                            if before.dom().contains(k) {
                                let j = choose|j: int| 0 <= j < old_users.len() && old_users[j].0@ == k;
                                assert(self.users@[j].0@ == k);
                            }
                        }
                    }
                    assert forall|k: Seq<char>| #[trigger] after.dom().contains(k) implies after[k] == before.insert(n, v)[k] by {
                        let j = choose|j: int| 0 <= j < self.users@.len() && self.users@[j].0@ == k;
                        self.lemma_lookup(j);
                        if k != n {
                            assert(j != last);
                            assert(old_users[j] == self.users@[j]);
                            let jj = choose|jj: int| 0 <= jj < old_users.len() && old_users[jj].0@ == k;
                            assert(jj == j);
                        } else {
                            assert(j == last);
                        }
                    }
                    assert(after =~= before.insert(n, v));
                }
            },
        }
    }
}

/// Where a connection is in the login conversation.
#[derive(Debug)]
pub enum LoginState {
    /// The prompt for the account name is to be sent.
    Start,
    /// Waiting for the account name.
    Username,
    /// Waiting for the password of an existing account.
    Password { name: String },
    /// Waiting for the password of a new account.
    NewUserPassword { name: String },
    /// Waiting for the password of a new account to be typed again.
    NewUserConfirm { name: String, password: String },
}

/// A login state, with its text as character sequences.
pub enum LoginStateSpec {
    Start,
    Username,
    Password(Seq<char>),
    NewUserPassword(Seq<char>),
    NewUserConfirm(Seq<char>, Seq<char>),
}

impl LoginState {
    pub open spec fn view_spec(&self) -> LoginStateSpec {
        match self {
            LoginState::Start => LoginStateSpec::Start,
            LoginState::Username => LoginStateSpec::Username,
            LoginState::Password { name } => LoginStateSpec::Password(name@),
            LoginState::NewUserPassword { name } => LoginStateSpec::NewUserPassword(name@),
            LoginState::NewUserConfirm { name, password } => LoginStateSpec::NewUserConfirm(
                name@,
                password@,
            ),
        }
    }
}

/// Something the login conversation sends to the player.
#[derive(Debug)]
pub enum LoginOutput {
    /// Text, sent as it is.
    Text(String),
    /// A line of text, ended with a line break.
    Line(String),
    /// Telnet "go ahead": the prompt is complete.
    GoAhead,
    /// Telnet WILL ECHO: the server echoes, so the client hides the input.
    WillEcho,
    /// Telnet WONT ECHO: the client shows the input again.
    WontEcho,
}

pub enum OutputSpec {
    Text(Seq<char>),
    Line(Seq<char>),
    GoAhead,
    WillEcho,
    WontEcho,
}

impl LoginOutput {
    pub open spec fn view_spec(&self) -> OutputSpec {
        match self {
            LoginOutput::Text(t) => OutputSpec::Text(t@),
            LoginOutput::Line(t) => OutputSpec::Line(t@),
            LoginOutput::GoAhead => OutputSpec::GoAhead,
            LoginOutput::WillEcho => OutputSpec::WillEcho,
            LoginOutput::WontEcho => OutputSpec::WontEcho,
        }
    }
}

/// What became of a login after one step.
#[derive(Debug)]
pub enum LoginOutcome {
    /// The conversation goes on in this state.
    Continue(LoginState),
    /// An existing user logged in and now plays `character`.
    LoggedIn { username: String, character: u64 },
    /// A new account was made; its character is still to be created, after
    /// which the user is registered with this hash.
    Created { username: String, hashed_password: String },
}

/// One step of the login conversation.
#[derive(Debug)]
pub struct LoginStep {
    pub outcome: LoginOutcome,
    pub output: Vec<LoginOutput>,
}

pub open spec fn outputs(s: &LoginStep) -> Seq<OutputSpec> {
    s.output@.map_values(|o: LoginOutput| o.view_spec())
}

/// Whether an account name is acceptable: every name is.
pub fn validate_name(_name: &String) -> (b: bool)
    ensures
        b,
{
    true
}

/// What one step of the login conversation does in state `state`, on the
/// line `line` (`None` when the player sent nothing yet), for the users
/// `users`. `hashed` stands for the new account's password hash where one
/// is made: `None` when hashing failed.
pub open spec fn login_step_spec(
    state: LoginStateSpec,
    line: Option<Seq<char>>,
    users: Map<Seq<char>, (Seq<char>, u64)>,
) -> (LoginStateSpec, Seq<OutputSpec>) {
    match state {
        LoginStateSpec::Start => (
            LoginStateSpec::Username,
            seq![OutputSpec::Text("Account name: "@), OutputSpec::GoAhead],
        ),
        _ => match line {
            None => (state, Seq::empty()),
            Some(l) => match state {
                LoginStateSpec::Username => {
                    let name = trimmed(l);
                    if users.dom().contains(name) {
                        (LoginStateSpec::Password(name), seq![OutputSpec::Line("Password: "@)])
                    } else {
                        (
                            LoginStateSpec::NewUserPassword(name),
                            seq![
                                OutputSpec::Line("Creating new account."@),
                                OutputSpec::Text("Password: "@),
                                OutputSpec::GoAhead,
                                OutputSpec::WillEcho,
                            ],
                        )
                    }
                },
                LoginStateSpec::NewUserPassword(name) => (
                    LoginStateSpec::NewUserConfirm(name, l),
                    seq![OutputSpec::Text("\nConfirm password: "@), OutputSpec::GoAhead],
                ),
                _ => (state, Seq::empty()),
            },
        },
    }
}

/// The text of a line, if there is one.
pub open spec fn line_view(line: Option<String>) -> Option<Seq<char>> {
    match line {
        Some(x) => Some(x@),
        None => None,
    }
}

/// Whether the stored hash of a password that is to be checked can be
/// read: only a line typed at the password prompt of a registered user is
/// checked against a hash.
pub open spec fn hash_readable(
    s: LoginStateSpec,
    l: Option<Seq<char>>,
    users: Map<Seq<char>, (Seq<char>, u64)>,
) -> bool {
    match (s, l) {
        (LoginStateSpec::Password(name), Some(pw)) => users.dom().contains(name)
            ==> bcrypt_verify_outcome(pw, users[name].0) is Some,
        _ => true,
    }
}

/// Whether `step` is what the login conversation does in state `s` on the
/// line `l` for the users `users`.
pub open spec fn step_taken(
    s: LoginStateSpec,
    l: Option<Seq<char>>,
    users: Map<Seq<char>, (Seq<char>, u64)>,
    step: LoginStep,
) -> bool {
    match s {
        LoginStateSpec::Password(name) => match l {
            None => step.outcome matches LoginOutcome::Continue(n) && n.view_spec() == s
                && outputs(&step) == Seq::<OutputSpec>::empty(),
            Some(pw) => if !users.dom().contains(name) {
                step.outcome matches LoginOutcome::Continue(n) && n.view_spec() is Start
                    && outputs(&step) == seq![OutputSpec::WontEcho]
            } else if bcrypt_verify_outcome(pw, users[name].0) == Some(true) {
                step.outcome matches LoginOutcome::LoggedIn { username, character }
                    && username@ == name && character == users[name].1
                    && outputs(&step) == seq![
                    OutputSpec::WontEcho,
                    OutputSpec::Line("Welcome back!"@),
                    OutputSpec::GoAhead,
                ]
            } else {
                step.outcome matches LoginOutcome::Continue(n) && n.view_spec() is Start
                    && outputs(&step) == seq![
                    OutputSpec::WontEcho,
                    OutputSpec::Line("Invalid password."@),
                ]
            },
        },
        LoginStateSpec::NewUserConfirm(name, pw) => match l {
            None => step.outcome matches LoginOutcome::Continue(n) && n.view_spec() == s
                && outputs(&step) == Seq::<OutputSpec>::empty(),
            Some(confirm) => if pw != confirm {
                step.outcome matches LoginOutcome::Continue(n) && n.view_spec() is Start
                    && outputs(&step) == seq![
                    OutputSpec::Line("\nPasswords do not match."@),
                    OutputSpec::WontEcho,
                ]
            } else {
                ||| (step.outcome matches LoginOutcome::Created { username, hashed_password }
                    && username@ == name && bcrypt_verify_outcome(pw, hashed_password@)
                    == Some(true) && outputs(&step) == seq![
                    OutputSpec::Text("\nCreating account..."@),
                    OutputSpec::GoAhead,
                    OutputSpec::WontEcho,
                    OutputSpec::Line(" done!"@),
                ])
                ||| (step.outcome matches LoginOutcome::Continue(n) && n.view_spec() is Start
                    && outputs(&step) == seq![
                    OutputSpec::Text("\nCreating account..."@),
                    OutputSpec::GoAhead,
                    OutputSpec::WontEcho,
                    OutputSpec::Line(" failed."@),
                ])
            },
        },
        _ => {
            let (next, out) = login_step_spec(s, l, users);
            step.outcome matches LoginOutcome::Continue(n) && n.view_spec() == next
                && outputs(&step) == out
        },
    }
}

/// An account made by the conversation can be logged into with its
/// password: once the user is registered with the hash that the creation
/// step gave, typing the same password at the password prompt logs in and
/// plays the registered character.
pub proof fn lemma_created_account_logs_in(
    users: Map<Seq<char>, (Seq<char>, u64)>,
    name: Seq<char>,
    password: Seq<char>,
    created: LoginStep,
    character: u64,
    login: LoginStep,
)
    requires
        step_taken(LoginStateSpec::NewUserConfirm(name, password), Some(password), users, created),
        created.outcome matches LoginOutcome::Created { hashed_password, .. } && step_taken(
            LoginStateSpec::Password(name),
            Some(password),
            users.insert(name, (hashed_password@, character)),
            login,
        ),
    ensures
        login.outcome matches LoginOutcome::LoggedIn { username, character: c } && username@ == name
            && c == character,
        outputs(&login) == seq![OutputSpec::WontEcho, OutputSpec::Line("Welcome back!"@), OutputSpec::GoAhead],
{
}

/// The step that ends the creation of the account `name`: with the hash
/// of its password it is created, and without one (hashing failed) the
/// conversation starts over.
pub fn account_created(name: String, hashed: Option<String>) -> (step: LoginStep)
    ensures
        match hashed {
            Some(h) => step.outcome matches LoginOutcome::Created { username, hashed_password }
                && username@ == name@ && hashed_password@ == h@ && outputs(&step) == seq![
                OutputSpec::Text("\nCreating account..."@),
                OutputSpec::GoAhead,
                OutputSpec::WontEcho,
                OutputSpec::Line(" done!"@),
            ],
            None => step.outcome matches LoginOutcome::Continue(n) && n.view_spec() is Start
                && outputs(&step) == seq![
                OutputSpec::Text("\nCreating account..."@),
                OutputSpec::GoAhead,
                OutputSpec::WontEcho,
                OutputSpec::Line(" failed."@),
            ],
        },
{
    let mut output: Vec<LoginOutput> = Vec::new();
    output.push(LoginOutput::Text(String::from_str("\nCreating account...")));
    output.push(LoginOutput::GoAhead);
    output.push(LoginOutput::WontEcho);
    match hashed {
        Some(hashed_password) => {
            output.push(LoginOutput::Line(String::from_str(" done!")));
            let step = LoginStep { outcome: LoginOutcome::Created { username: name, hashed_password }, output };
            proof {
                assert(outputs(&step) =~= seq![
                    OutputSpec::Text("\nCreating account..."@),
                    OutputSpec::GoAhead,
                    OutputSpec::WontEcho,
                    OutputSpec::Line(" done!"@),
                ]);
            }
            step
        },
        None => {
            output.push(LoginOutput::Line(String::from_str(" failed.")));
            let step = LoginStep { outcome: LoginOutcome::Continue(LoginState::Start), output };
            proof {
                assert(outputs(&step) =~= seq![
                    OutputSpec::Text("\nCreating account..."@),
                    OutputSpec::GoAhead,
                    OutputSpec::WontEcho,
                    OutputSpec::Line(" failed."@),
                ]);
            }
            step
        },
    }
}

/// Runs one step of the login conversation: the state of the connection,
/// the line the player sent (if any; none is read in the `Start` state),
/// and the users of the game. The stored hash that a password is checked
/// against must be readable.
pub fn login_step(state: LoginState, line: Option<String>, users: &UserDb) -> (step: LoginStep)
    requires
        state.view_spec() is Start ==> line is None,
        hash_readable(state.view_spec(), line_view(line), users.users_map()),
    ensures
        step_taken(state.view_spec(), line_view(line), users.users_map(), step),
{
    let mut output: Vec<LoginOutput> = Vec::new();
    match state {
        LoginState::Start => {
            output.push(LoginOutput::Text(String::from_str("Account name: ")));
            output.push(LoginOutput::GoAhead);
            proof {
                assert(outputs(&LoginStep { outcome: LoginOutcome::Continue(LoginState::Username), output }) =~= seq![OutputSpec::Text("Account name: "@), OutputSpec::GoAhead]);
            }
            LoginStep { outcome: LoginOutcome::Continue(LoginState::Username), output }
        },
        LoginState::Username => {
            let l = match line {
                Some(l) => l,
                None => {
                    proof {
                        assert(outputs(&LoginStep { outcome: LoginOutcome::Continue(LoginState::Username), output }) =~= Seq::<OutputSpec>::empty());
                    }
                    return LoginStep { outcome: LoginOutcome::Continue(LoginState::Username), output };
                },
            };
            let name = trim(l.as_str());
            if !validate_name(&name) {
                output.push(LoginOutput::Line(String::from_str("invalid user name")));
                return LoginStep { outcome: LoginOutcome::Continue(LoginState::Start), output };
            }
            if users.contains(&name) {
                output.push(LoginOutput::Line(String::from_str("Password: ")));
                let step = LoginStep { outcome: LoginOutcome::Continue(LoginState::Password { name }), output };
                proof {
                    assert(outputs(&step) =~= seq![OutputSpec::Line("Password: "@)]);
                }
                step
            } else {
                output.push(LoginOutput::Line(String::from_str("Creating new account.")));
                output.push(LoginOutput::Text(String::from_str("Password: ")));
                output.push(LoginOutput::GoAhead);
                output.push(LoginOutput::WillEcho);
                let step = LoginStep { outcome: LoginOutcome::Continue(LoginState::NewUserPassword { name }), output };
                proof {
                    assert(outputs(&step) =~= seq![
                        OutputSpec::Line("Creating new account."@),
                        OutputSpec::Text("Password: "@),
                        OutputSpec::GoAhead,
                        OutputSpec::WillEcho,
                    ]);
                }
                step
            }
        },
        LoginState::Password { name } => {
            let password = match line {
                Some(l) => l,
                None => {
                    proof {
                        assert(output@.map_values(|o: LoginOutput| o.view_spec()) =~= Seq::<OutputSpec>::empty());
                    }
                    return LoginStep { outcome: LoginOutcome::Continue(LoginState::Password { name }), output };
                },
            };
            output.push(LoginOutput::WontEcho);
            let entry = match users.get(&name) {
                Some(e) => e,
                None => {
                    let step = LoginStep { outcome: LoginOutcome::Continue(LoginState::Start), output };
                    proof {
                        assert(outputs(&step) =~= seq![OutputSpec::WontEcho]);
                    }
                    return step;
                },
            };
            let ok = bcrypt_verify(&password, &entry.hashed_password);
            if ok != Some(true) {
                output.push(LoginOutput::Line(String::from_str("Invalid password.")));
                let step = LoginStep { outcome: LoginOutcome::Continue(LoginState::Start), output };
                proof {
                    assert(outputs(&step) =~= seq![
                        OutputSpec::WontEcho,
                        OutputSpec::Line("Invalid password."@),
                    ]);
                }
                return step;
            }
            output.push(LoginOutput::Line(String::from_str("Welcome back!")));
            output.push(LoginOutput::GoAhead);
            let character = entry.character;
            let step = LoginStep { outcome: LoginOutcome::LoggedIn { username: name, character }, output };
            proof {
                assert(outputs(&step) =~= seq![
                    OutputSpec::WontEcho,
                    OutputSpec::Line("Welcome back!"@),
                    OutputSpec::GoAhead,
                ]);
            }
            step
        },
        LoginState::NewUserPassword { name } => {
            let password = match line {
                Some(l) => l,
                None => {
                    proof {
                        assert(output@.map_values(|o: LoginOutput| o.view_spec()) =~= Seq::<OutputSpec>::empty());
                    }
                    return LoginStep { outcome: LoginOutcome::Continue(LoginState::NewUserPassword { name }), output };
                },
            };
            output.push(LoginOutput::Text(String::from_str("\nConfirm password: ")));
            output.push(LoginOutput::GoAhead);
            let step = LoginStep {
                outcome: LoginOutcome::Continue(LoginState::NewUserConfirm { name, password }),
                output,
            };
            proof {
                assert(outputs(&step) =~= seq![OutputSpec::Text("\nConfirm password: "@), OutputSpec::GoAhead]);
            }
            step
        },
        LoginState::NewUserConfirm { name, password } => {
            let confirm = match line {
                Some(l) => l,
                None => {
                    proof {
                        assert(output@.map_values(|o: LoginOutput| o.view_spec()) =~= Seq::<OutputSpec>::empty());
                    }
                    return LoginStep {
                        outcome: LoginOutcome::Continue(LoginState::NewUserConfirm { name, password }),
                        output,
                    };
                },
            };
            if password != confirm {
                output.push(LoginOutput::Line(String::from_str("\nPasswords do not match.")));
                output.push(LoginOutput::WontEcho);
                let step = LoginStep { outcome: LoginOutcome::Continue(LoginState::Start), output };
                proof {
                    assert(outputs(&step) =~= seq![
                        OutputSpec::Line("\nPasswords do not match."@),
                        OutputSpec::WontEcho,
                    ]);
                }
                return step;
            }
            let hashed = bcrypt_hash(&confirm);
            account_created(name, hashed)
        },
    }
}

/// Runs one step of the login conversation as [`login_step`] does, or
/// gives `None`, doing nothing, where the password typed would be checked
/// against a stored hash that cannot be read.
pub fn login_step_checked(state: LoginState, line: Option<String>, users: &UserDb) -> (r: Option<LoginStep>)
    requires
        state.view_spec() is Start ==> line is None,
    ensures
        r is Some <==> hash_readable(state.view_spec(), line_view(line), users.users_map()),
        r matches Some(step) ==> step_taken(state.view_spec(), line_view(line), users.users_map(), step),
{
    if let LoginState::Password { name } = &state {
        if let Some(password) = &line {
            if let Some(entry) = users.get(name) {
                if bcrypt_verify(password, &entry.hashed_password).is_none() {
                    return None;
                }
            }
        }
    }
    Some(login_step(state, line, users))
}

} // verus!
