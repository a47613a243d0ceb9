//! The client registry — registered accounts and the names that have logged
//! in — and the per-request dispatcher that routes one parsed request line to
//! the registry or to the file service and yields the status code to reply
//! with.
//!
//! The registry's executable state lives in [`ClientSystem`]; its model is
//! [`RegistryState`], and each operation is specified by a pure transition
//! function on it, as the file service's operations are.

use crate::file_system::FileSystem;
use crate::file_system::FsState;
use crate::file_system::SystemResult;
use vstd::prelude::*;
use vstd::string::StrSliceExecFns;

verus! {

/// Mathematical model of one registered account.
#[verifier::ext_equal]
pub struct AccountRecord {
    pub name: Seq<char>,
    pub password: Seq<char>,
}

/// Mathematical model of the registry: the account table and the names that
/// have logged in, in order of first successful login.
#[verifier::ext_equal]
pub struct RegistryState {
    pub clients: Seq<AccountRecord>,
    pub online: Seq<Seq<char>>,
}

impl RegistryState {
    /// Well-formedness: account names are unique, and the online list holds
    /// registered names, each at most once.
    pub open spec fn wf(self) -> bool {
        &&& forall|i: int, j: int|
            0 <= i < j < self.clients.len() ==> #[trigger] self.clients[i].name
                != #[trigger] self.clients[j].name
        &&& forall|i: int|
            0 <= i < self.online.len() ==> self.client_exists(#[trigger] self.online[i])
        &&& forall|i: int, j: int|
            0 <= i < j < self.online.len() ==> #[trigger] self.online[i]
                != #[trigger] self.online[j]
    }

    /// Whether an account of this name is registered.
    pub open spec fn client_exists(self, name: Seq<char>) -> bool {
        exists|i: int| 0 <= i < self.clients.len() && #[trigger] self.clients[i].name == name
    }

    /// The position of the account of this name (meaningful under
    /// [`RegistryState::client_exists`] and [`RegistryState::wf`]).
    pub open spec fn client_index(self, name: Seq<char>) -> int {
        choose|i: int| 0 <= i < self.clients.len() && #[trigger] self.clients[i].name == name
    }

    /// The account of this name.
    pub open spec fn client_at(self, name: Seq<char>) -> AccountRecord {
        self.clients[self.client_index(name)]
    }

    /// Whether this name has logged in.
    pub open spec fn is_online(self, name: Seq<char>) -> bool {
        self.online.contains(name)
    }

    /// In a well-formed registry, a position holding `name` is the unique one
    /// that [`RegistryState::client_index`] denotes.
    pub proof fn lemma_client_index_is(self, name: Seq<char>, i: int)
        requires
            self.wf(),
            0 <= i < self.clients.len(),
            self.clients[i].name == name,
        ensures
            self.client_exists(name),
            self.client_index(name) == i,
    {
        let j = self.client_index(name);
        if i < j {
            assert(self.clients[i].name != self.clients[j].name);
        } else if j < i {
            assert(self.clients[j].name != self.clients[i].name);
        }
    }

    /// Transition of `register`: a new account is added, unless the name is
    /// taken, in which case registration is rejected and nothing changes.
    /// Accounts are never deleted and never mutated.
    pub open spec fn spec_register_client(self, name: Seq<char>, password: Seq<char>) -> (
        RegistryState,
        SystemResult,
    ) {
        if self.client_exists(name) {
            (self, SystemResult::ClientAlreadyExists)
        } else {
            (
                RegistryState {
                    clients: self.clients.push(AccountRecord { name, password }),
                    online: self.online,
                },
                SystemResult::Success,
            )
        }
    }

    /// Transition of `login`: an unknown name is rejected as
    /// `ClientDoesntExist`, a known name with the wrong password as
    /// `WrongCredentials`; on an exact match the name is recorded as online,
    /// idempotently — a repeated login succeeds and changes nothing.
    pub open spec fn spec_login_client(self, name: Seq<char>, password: Seq<char>) -> (
        RegistryState,
        SystemResult,
    ) {
        if !self.client_exists(name) {
            (self, SystemResult::ClientDoesntExist)
        } else if self.client_at(name).password != password {
            (self, SystemResult::WrongCredentials)
        } else if self.is_online(name) {
            (self, SystemResult::Success)
        } else {
            (
                RegistryState { clients: self.clients, online: self.online.push(name) },
                SystemResult::Success,
            )
        }
    }

    /// `register` preserves well-formedness.
    pub proof fn lemma_register_client_preserves_wf(self, name: Seq<char>, password: Seq<char>)
        requires
            self.wf(),
        ensures
            self.spec_register_client(name, password).0.wf(),
    {
        let s2 = self.spec_register_client(name, password).0;
        if !self.client_exists(name) {
            assert forall|i: int, j: int|
                0 <= i < j < s2.clients.len() implies #[trigger] s2.clients[i].name
                != #[trigger] s2.clients[j].name by {
                if j == self.clients.len() {
                    assert(s2.clients[i] == self.clients[i]);
                    assert(s2.clients[j].name == name);
                    assert(!(self.clients[i].name == name));
                } else {
                    assert(s2.clients[i] == self.clients[i]);
                    assert(s2.clients[j] == self.clients[j]);
                }
            }
            assert forall|i: int|
                0 <= i < s2.online.len() implies s2.client_exists(#[trigger] s2.online[i]) by {
                assert(self.client_exists(self.online[i]));
                let k = choose|k: int|
                    0 <= k < self.clients.len() && #[trigger] self.clients[k].name
                        == self.online[i];
                assert(s2.clients[k].name == self.online[i]);
            }
        }
    }

    /// `login` preserves well-formedness.
    pub proof fn lemma_login_client_preserves_wf(self, name: Seq<char>, password: Seq<char>)
        requires
            self.wf(),
        ensures
            self.spec_login_client(name, password).0.wf(),
    {
        let s2 = self.spec_login_client(name, password).0;
        if self.client_exists(name) && self.client_at(name).password == password && !self.is_online(
            name,
        ) {
            assert forall|i: int|
                0 <= i < s2.online.len() implies s2.client_exists(#[trigger] s2.online[i]) by {
                if i == self.online.len() {
                    assert(s2.online[i] == name);
                    let k = self.client_index(name);
                    assert(0 <= k < self.clients.len() && self.clients[k].name == name);
                    assert(s2.clients[k].name == name);
                } else {
                    assert(s2.online[i] == self.online[i]);
                    assert(self.client_exists(self.online[i]));
                    let k = choose|k: int|
                        0 <= k < self.clients.len() && #[trigger] self.clients[k].name
                            == self.online[i];
                    assert(s2.clients[k].name == self.online[i]);
                }
            }
            assert forall|i: int, j: int|
                0 <= i < j < s2.online.len() implies #[trigger] s2.online[i]
                != #[trigger] s2.online[j] by {
                if j == self.online.len() {
                    assert(s2.online[i] == self.online[i]);
                    assert(s2.online[j] == name);
                    if self.online[i] == name {
                        assert(self.online.contains(name));
                    }
                } else {
                    assert(s2.online[i] == self.online[i]);
                    assert(s2.online[j] == self.online[j]);
                }
            }
        }
    }
}

/// Registering a name that is already registered is rejected and leaves the
/// registry unchanged, whatever password is offered.
pub proof fn lemma_register_duplicate_rejected(s: RegistryState, name: Seq<char>, password: Seq<char>)
    requires
        s.wf(),
        s.client_exists(name),
    ensures
        s.spec_register_client(name, password) == (s, SystemResult::ClientAlreadyExists),
{
}

/// A login with a registered name but a password other than the stored one is
/// rejected as `WrongCredentials`; a login with an unregistered name as
/// `ClientDoesntExist`. Neither changes the registry.
pub proof fn lemma_login_rejections(s: RegistryState, name: Seq<char>, password: Seq<char>)
    requires
        s.wf(),
    ensures
        s.client_exists(name) && s.client_at(name).password != password
            ==> s.spec_login_client(name, password) == (s, SystemResult::WrongCredentials),
        !s.client_exists(name) ==> s.spec_login_client(name, password) == (
            s,
            SystemResult::ClientDoesntExist,
        ),
{
}

/// One registered account: a unique name and its password.
pub struct Client {
    name: String,
    password: String,
}

impl View for Client {
    type V = AccountRecord;

    closed spec fn view(&self) -> AccountRecord {
        AccountRecord { name: self.name@, password: self.password@ }
    }
}

impl Client {
    /// Assembles an account from its name and password.
    fn new(name: String, password: String) -> (c: Client)
        ensures
            c@ == (AccountRecord { name: name@, password: password@ }),
    {
        Client { name, password }
    }
}

/// The client registry: the account table and the online list.
pub struct ClientSystem {
    clients: Vec<Client>,
    clients_online: Vec<String>,
}

impl View for ClientSystem {
    type V = RegistryState;

    closed spec fn view(&self) -> RegistryState {
        RegistryState {
            clients: self.clients@.map_values(|c: Client| c@),
            online: self.clients_online@.map_values(|s: String| s@),
        }
    }
}

impl ClientSystem {
    /// Well-formedness of the registry; see [`RegistryState::wf`].
    pub open spec fn wf(&self) -> bool {
        self@.wf()
    }

    /// The empty registry: no accounts, nobody online.
    pub fn new() -> (cs: Self)
        ensures
            cs.wf(),
            cs@.clients.len() == 0,
            cs@.online.len() == 0,
    {
        ClientSystem { clients: Vec::new(), clients_online: Vec::new() }
    }

    /// Position of the account of this name, if it is registered.
    fn find_client_index(&self, name: &String) -> (r: Option<usize>)
        ensures
            r is Some <==> self@.client_exists(name@),
            r matches Some(i) ==> 0 <= i < self@.clients.len() && self@.clients[i as int].name
                == name@,
    {
        let n = self.clients.len();
        let mut i: usize = 0;
        while i < n
            invariant
                n == self.clients.len(),
                i <= n,
                forall|j: int| 0 <= j < i ==> #[trigger] self@.clients[j].name != name@,
            decreases n - i,
        {
            if self.clients[i].name == *name {
                proof {
                    assert(self@.clients[i as int].name == name@);
                }
                return Some(i);
            }
            i = i + 1;
        }
        None
    }

    /// Whether an account of this name is registered, and the account if so.
    pub fn client_exists(&self, name: &String) -> (r: Option<&Client>)
        requires
            self.wf(),
        ensures
            r is Some <==> self@.client_exists(name@),
            r matches Some(c) ==> c@ == self@.client_at(name@),
    {
        match self.find_client_index(name) {
            Some(i) => {
                proof {
                    self@.lemma_client_index_is(name@, i as int);
                }
                Some(&self.clients[i])
            },
            None => None,
        }
    }

    /// `register`: adds the account unless the name is taken, in which case
    /// the duplicate registration is rejected.
    pub fn register_client(&mut self, name: String, password: String) -> (r: SystemResult)
        requires
            old(self).wf(),
        ensures
            final(self).wf(),
            final(self)@ == old(self)@.spec_register_client(name@, password@).0,
            r == old(self)@.spec_register_client(name@, password@).1,
    {
        match self.find_client_index(&name) {
            Some(_) => SystemResult::ClientAlreadyExists,
            None => {
                let client = Client::new(name.clone(), password);
                self.clients.push(client);
                proof {
                    lemma_map_view_push_client(old(self).clients@, client);
                    assert(self@ =~= old(self)@.spec_register_client(name@, password@).0);
                    old(self)@.lemma_register_client_preserves_wf(name@, password@);
                }
                SystemResult::Success
            },
        }
    }

    /// `login`: an exact name and password match records the name as online,
    /// idempotently; a wrong password or an unknown name is rejected.
    pub fn login_client(&mut self, name: String, password: String) -> (r: SystemResult)
        requires
            old(self).wf(),
        ensures
            final(self).wf(),
            final(self)@ == old(self)@.spec_login_client(name@, password@).0,
            r == old(self)@.spec_login_client(name@, password@).1,
    {
        let i = match self.find_client_index(&name) {
            Some(i) => i,
            None => {
                return SystemResult::ClientDoesntExist;
            },
        };
        proof {
            self@.lemma_client_index_is(name@, i as int);
        }
        if self.clients[i].password != password {
            return SystemResult::WrongCredentials;
        }
        if !self.name_is_online(&name) {
            self.clients_online.push(name);
            proof {
                lemma_map_view_push_string(old(self).clients_online@, name);
                assert(self@ =~= old(self)@.spec_login_client(name@, password@).0);
                old(self)@.lemma_login_client_preserves_wf(name@, password@);
            }
        }
        SystemResult::Success
    }

    /// Whether this name is recorded as online.
    fn name_is_online(&self, name: &String) -> (r: bool)
        ensures
            r == self@.is_online(name@),
    {
        let n = self.clients_online.len();
        let mut i: usize = 0;
        while i < n
            invariant
                n == self.clients_online.len(),
                i <= n,
                forall|j: int| 0 <= j < i ==> #[trigger] self@.online[j] != name@,
            decreases n - i,
        {
            if self.clients_online[i] == *name {
                proof {
                    assert(self@.online[i as int] == name@);
                }
                return true;
            }
            i = i + 1;
        }
        proof {
            if self@.online.contains(name@) {
                let k = choose|k: int| 0 <= k < self@.online.len() && self@.online[k] == name@;
                assert(self@.online[k] != name@);
            }
        }
        false
    }
}

/// Whether a one-character operation tag matches either case of a letter.
pub open spec fn op_matches(option: Seq<char>, lower: char, upper: char) -> bool {
    option.len() == 1 && (option[0] == lower || option[0] == upper)
}

/// Outcome of one main-menu request on the registry: `r` registers, `l` logs
/// in, `e` asks to leave; any other tag, or missing arguments, is a protocol
/// error and yields nothing.
pub open spec fn spec_main_menu(
    s: RegistryState,
    option: Seq<char>,
    args: Seq<Seq<char>>,
) -> Option<(RegistryState, SystemResult)> {
    if op_matches(option, 'r', 'R') {
        if args.len() < 2 {
            None
        } else {
            Some(s.spec_register_client(args[0], args[1]))
        }
    } else if op_matches(option, 'l', 'L') {
        if args.len() < 2 {
            None
        } else {
            Some(s.spec_login_client(args[0], args[1]))
        }
    } else if op_matches(option, 'e', 'E') {
        Some((s, SystemResult::Exit))
    } else {
        None
    }
}

/// Outcome of one file-menu request on the file service: the seven file
/// operations under their tags, and `e` as a logical logout that changes no
/// server state; any other tag, or malformed arguments, yields nothing.
pub open spec fn spec_client_menu(s: FsState, option: Seq<char>, args: Seq<Seq<char>>) -> Option<
    (FsState, SystemResult),
> {
    if op_matches(option, 'e', 'E') {
        Some((s, SystemResult::Exit))
    } else if op_matches(option, 'c', 'C') {
        crate::option_handling::spec_create_file(s, args)
    } else if op_matches(option, 'd', 'D') {
        crate::option_handling::spec_delete_file(s, args)
    } else if op_matches(option, 'r', 'R') {
        crate::option_handling::spec_rename_file(s, args)
    } else if op_matches(option, 'o', 'O') {
        crate::option_handling::spec_open_file(s, args)
    } else if op_matches(option, 'x', 'X') {
        crate::option_handling::spec_close_file(s, args)
    } else if op_matches(option, 'l', 'L') {
        crate::option_handling::spec_read_file(s, args)
    } else if op_matches(option, 'w', 'W') {
        crate::option_handling::spec_write_to_file(s, args)
    } else {
        None
    }
}

/// Outcome of one whole request line, already split into fields: field 0 is
/// the menu tag (`c` files, `m` accounts), field 1 the operation tag, the
/// rest the arguments. A request touches one of the two states and leaves
/// the other as it is.
pub open spec fn spec_interact(
    fs: FsState,
    cs: RegistryState,
    args: Seq<Seq<char>>,
) -> Option<(FsState, RegistryState, SystemResult)> {
    if args.len() < 2 {
        None
    } else if args[0].len() == 1 && args[0][0] == 'c' {
        match spec_client_menu(fs, args[1], args.skip(2)) {
            Some(t) => Some((t.0, cs, t.1)),
            None => None,
        }
    } else if args[0].len() == 1 && args[0][0] == 'm' {
        match spec_main_menu(cs, args[1], args.skip(2)) {
            Some(t) => Some((fs, t.0, t.1)),
            None => None,
        }
    } else {
        None
    }
}

/// The argument fields of a request: a copy of `args` from position `start`
/// on.
fn tail_from(args: &Vec<String>, start: usize) -> (r: Vec<String>)
    requires
        start <= args@.len(),
    ensures
        r@.len() == args@.len() - start,
        forall|i: int| 0 <= i < r@.len() ==> #[trigger] r@[i]@ == args@[i + start]@,
{
    let n = args.len();
    let mut r: Vec<String> = Vec::new();
    let mut i: usize = start;
    while i < n
        invariant
            n == args@.len(),
            start <= i <= n,
            r@.len() == i - start,
            forall|k: int| 0 <= k < r@.len() ==> #[trigger] r@[k]@ == args@[k + start]@,
        decreases n - i,
    {
        r.push(args[i].clone());
        i = i + 1;
    }
    r
}

/// Routes one main-menu request (register, login, exit) to the registry.
pub fn interact_main_menu(
    client_system: &mut ClientSystem,
    option: &String,
    args: &Vec<String>,
) -> (r: Option<SystemResult>)
    requires
        old(client_system).wf(),
    ensures
        final(client_system).wf(),
        match spec_main_menu(old(client_system)@, option@, args@.map_values(|a: String| a@)) {
            Some(t) => final(client_system)@ == t.0 && r == Some(t.1),
            None => *final(client_system) == *old(client_system) && r is None,
        },
{
    if option.as_str().unicode_len() != 1 {
        return None;
    }
    let c = option.as_str().get_char(0);
    if c == 'r' || c == 'R' || c == 'l' || c == 'L' {
        if args.len() < 2 {
            return None;
        }
        let name = args[0].clone();
        let password = args[1].clone();
        if c == 'r' || c == 'R' {
            Some(client_system.register_client(name, password))
        } else {
            Some(client_system.login_client(name, password))
        }
    } else if c == 'e' || c == 'E' {
        Some(SystemResult::Exit)
    } else {
        None
    }
}

/// Routes one file-menu request (the seven file operations, or exit) to the
/// file service.
pub fn interact_client_menu(
    file_system: &mut FileSystem,
    option: &String,
    args: &Vec<String>,
) -> (r: Option<SystemResult>)
    requires
        old(file_system).wf(),
    ensures
        final(file_system).wf(),
        match spec_client_menu(old(file_system)@, option@, args@.map_values(|a: String| a@)) {
            Some(t) => final(file_system)@ == t.0 && r == Some(t.1),
            None => *final(file_system) == *old(file_system) && r is None,
        },
{
    if option.as_str().unicode_len() != 1 {
        return None;
    }
    let c = option.as_str().get_char(0);
    if c == 'e' || c == 'E' {
        Some(SystemResult::Exit)
    } else if c == 'c' || c == 'C' {
        crate::option_handling::create_file(file_system, args)
    } else if c == 'd' || c == 'D' {
        crate::option_handling::delete_file(file_system, args)
    } else if c == 'r' || c == 'R' {
        crate::option_handling::rename_file(file_system, args)
    } else if c == 'o' || c == 'O' {
        crate::option_handling::open_file(file_system, args)
    } else if c == 'x' || c == 'X' {
        crate::option_handling::close_file(file_system, args)
    } else if c == 'l' || c == 'L' {
        crate::option_handling::read_file(file_system, args)
    } else if c == 'w' || c == 'W' {
        crate::option_handling::write_to_file(file_system, args)
    } else {
        None
    }
}

/// Handles one request line, already split into its fields: field 0 selects
/// the subsystem, field 1 the operation, the rest are its arguments. Yields
/// the status code to reply with, or nothing on a protocol error, which
/// closes only the offending connection.
pub fn interact(
    args: &Vec<String>,
    file_system: &mut FileSystem,
    client_system: &mut ClientSystem,
) -> (r: Option<SystemResult>)
    requires
        old(file_system).wf(),
        old(client_system).wf(),
    ensures
        final(file_system).wf(),
        final(client_system).wf(),
        match spec_interact(
            old(file_system)@,
            old(client_system)@,
            args@.map_values(|a: String| a@),
        ) {
            Some(t) => final(file_system)@ == t.0 && final(client_system)@ == t.1 && r == Some(
                t.2,
            ),
            None => *final(file_system) == *old(file_system) && *final(client_system) == *old(
                client_system,
            ) && r is None,
        },
{
    if args.len() < 2 {
        return None;
    }
    if args[0].as_str().unicode_len() != 1 {
        return None;
    }
    let menu = args[0].as_str().get_char(0);
    let rest = tail_from(args, 2);
    proof {
        assert(rest@.map_values(|a: String| a@) =~= args@.map_values(|a: String| a@).skip(2));
    }
    if menu == 'c' {
        interact_client_menu(file_system, &args[1], &rest)
    } else if menu == 'm' {
        interact_main_menu(client_system, &args[1], &rest)
    } else {
        None
    }
}

/// Taking views of every account commutes with appending one account.
proof fn lemma_map_view_push_client(s: Seq<Client>, x: Client)
    ensures
        s.push(x).map_values(|c: Client| c@) =~= s.map_values(|c: Client| c@).push(x@),
{
}

/// Taking views of every name commutes with appending one name.
proof fn lemma_map_view_push_string(s: Seq<String>, x: String)
    ensures
        s.push(x).map_values(|t: String| t@) =~= s.map_values(|t: String| t@).push(x@),
{
}

} // verus!
