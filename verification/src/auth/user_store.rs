use vstd::prelude::*;

use subtle::ConstantTimeEq;

use super::user_credentials::UserCredentials;
use crate::text::{chars_to_string, decimal_text, push_decimal, push_str};

verus! {

/// Longest username or password RFC 1929 can carry (one length byte).
pub const MAX_CREDENTIAL_LEN: usize = 255;

/// Length byte + up to 255 bytes of value, zero padded.
const BLOCK_LEN: usize = 256;

/// Invalid user list in the settings.
#[derive(Debug, Clone, PartialEq, Eq)]
pub enum CredentialError {
    NoUsers,
    InvalidUsername { index: usize },
    InvalidPassword { username: String },
    DuplicateUsername(String),
}

/// The error message.
pub open spec fn credential_error_text(e: CredentialError) -> Seq<char> {
    match e {
        CredentialError::NoUsers => "at least one user is required"@,
        CredentialError::InvalidUsername { index } => "user #"@ + decimal_text(index as nat)
            + ": username must be 1..=255 bytes"@,
        CredentialError::InvalidPassword { username } => "user '"@ + username@
            + "': password must be 1..=255 bytes"@,
        CredentialError::DuplicateUsername(username) => "username '"@ + username@
            + "' is listed more than once"@,
    }
}

impl CredentialError {
    /// The error message (its `Display` form).
    pub fn message(&self) -> (r: String)
        ensures
            r@ == credential_error_text(*self),
    {
        let mut out: Vec<char> = Vec::new();
        match self {
            CredentialError::NoUsers => push_str(&mut out, "at least one user is required"),
            CredentialError::InvalidUsername { index } => {
                push_str(&mut out, "user #");
                push_decimal(&mut out, *index as u64);
                push_str(&mut out, ": username must be 1..=255 bytes");
            },
            CredentialError::InvalidPassword { username } => {
                push_str(&mut out, "user '");
                push_str(&mut out, username.as_str());
                push_str(&mut out, "': password must be 1..=255 bytes");
            },
            CredentialError::DuplicateUsername(username) => {
                push_str(&mut out, "username '");
                push_str(&mut out, username.as_str());
                push_str(&mut out, "' is listed more than once");
            },
        }
        assert(out@ =~= credential_error_text(*self));
        chars_to_string(out.as_slice())
    }
}

/// The UTF-8 bytes of a string.
pub open spec fn utf8(s: Seq<char>) -> Seq<u8> {
    vstd::utf8::encode_utf8(s)
}

/// A username or password RFC 1929 can carry: 1 to 255 bytes.
pub open spec fn carriable(value: Seq<u8>) -> bool {
    1 <= value.len() <= 255
}

/// The first problem of user `i`, if any: a username or password that cannot be carried,
/// or a username already listed before it.
pub open spec fn user_problem(users: Seq<UserCredentials>, i: int) -> Option<CredentialError> {
    let user = users[i];
    if !carriable(utf8(user.username@)) {
        Some(CredentialError::InvalidUsername { index: i as usize })
    } else if !carriable(utf8(user.password@)) {
        Some(CredentialError::InvalidPassword { username: user.username })
    } else if exists|j: int| 0 <= j < i && (#[trigger] users[j]).username@ == user.username@ {
        Some(CredentialError::DuplicateUsername(user.username))
    } else {
        None
    }
}

/// The first problem among users `i..`.
pub open spec fn first_user_problem(users: Seq<UserCredentials>, i: int) -> Option<
    CredentialError,
>
    decreases users.len() - i,
{
    if i >= users.len() || i < 0 {
        None
    } else {
        match user_problem(users, i) {
            Some(e) => Some(e),
            None => first_user_problem(users, i + 1),
        }
    }
}

/// What `UserStore::new` decides about a user list: `NoUsers` when empty, else the first
/// problem of a user, in list order.
pub open spec fn user_list_problem(users: Seq<UserCredentials>) -> Option<CredentialError> {
    if users.len() == 0 {
        Some(CredentialError::NoUsers)
    } else {
        first_user_problem(users, 0)
    }
}

/// A value as a fixed 256-byte block: length byte, the bytes, zero padding.
pub open spec fn block_of(value: Seq<u8>) -> Seq<u8> {
    seq![value.len() as u8] + value + Seq::new((255 - value.len()) as nat, |k: int| 0u8)
}

/// The value a block holds.
pub open spec fn block_value(block: Seq<u8>) -> Seq<u8> {
    block.subrange(1, 1 + block[0] as int)
}

pub open spec fn zero_block() -> Seq<u8> {
    Seq::new(256, |k: int| 0u8)
}

/// The block a candidate value is compared as: its own block when it could be stored,
/// otherwise all zeros.
pub open spec fn candidate_block(value: Seq<u8>) -> Seq<u8> {
    if carriable(value) {
        block_of(value)
    } else {
        zero_block()
    }
}

/// `"a", "b", ...`: names in double quotes, separated by `, `.
pub open spec fn quoted_list(names: Seq<Seq<char>>) -> Seq<char>
    decreases names.len(),
{
    if names.len() == 0 {
        seq![]
    } else if names.len() == 1 {
        seq!['"'] + names[0] + seq!['"']
    } else {
        quoted_list(names.drop_last()) + ", "@ + seq!['"'] + names.last() + seq!['"']
    }
}

/// The debug rendering of a store: its usernames, never a password.
pub open spec fn store_debug_text(names: Seq<Seq<char>>) -> Seq<char> {
    "UserStore { users: ["@ + quoted_list(names) + "] }"@
}

struct StoredUser {
    name: String,
    username: Vec<u8>,
    password: Vec<u8>,
}

/// One configured user as the store keeps it: the name and the bytes of username and
/// password.
pub struct StoredView {
    pub name: Seq<char>,
    pub username: Seq<u8>,
    pub password: Seq<u8>,
}

/// Checks username/password pairs in constant time.
///
/// Every value is kept as a fixed 256-byte block (length byte + zero padding), so each
/// comparison touches the same number of bytes: timing reveals neither where a guess diverges
/// nor the length of a password. Every attempt is compared against all users, so timing does
/// not reveal whether a username exists either.
pub struct UserStore {
    users: Vec<StoredUser>,
}

/// `subtle::ConstantTimeEq::ct_eq` on byte slices, read as a `bool`: true exactly when the
/// slices have the same length and the same bytes; equal-length slices are compared in time
/// independent of their contents.
#[verifier::external_body]
fn constant_time_eq(a: &[u8], b: &[u8]) -> (r: bool)
    ensures
        r == (a@ == b@),
{
    bool::from(a.ct_eq(b))
}

fn to_block(value: &[u8]) -> (r: Option<Vec<u8>>)
    ensures
        match r {
            Some(block) => carriable(value@) && block@ == block_of(value@),
            None => !carriable(value@),
        },
{
    let len = value.len();
    if len == 0 || len > MAX_CREDENTIAL_LEN {
        return None;
    }
    let mut block: Vec<u8> = Vec::new();
    block.push(len as u8);
    let mut i: usize = 0;
    while i < len
        invariant
            i <= len == value@.len() <= 255,
            block@ =~= seq![len as u8] + value@.take(i as int),
        decreases len - i,
    {
        block.push(value[i]);
        i = i + 1;
    }
    let mut k: usize = len;
    while k < MAX_CREDENTIAL_LEN
        invariant
            len <= k <= 255,
            len == value@.len(),
            block@ =~= seq![len as u8] + value@ + Seq::new((k - len) as nat, |j: int| 0u8),
        decreases 255 - k,
    {
        block.push(0);
        k = k + 1;
    }
    Some(block)
}

fn zero_block_vec() -> (r: Vec<u8>)
    ensures
        r@ == zero_block(),
{
    let mut block: Vec<u8> = Vec::new();
    let mut k: usize = 0;
    while k < BLOCK_LEN
        invariant
            k <= 256,
            block@ =~= Seq::new(k as nat, |j: int| 0u8),
        decreases 256 - k,
    {
        block.push(0);
        k = k + 1;
    }
    block
}

proof fn lemma_block_value(v: Seq<u8>)
    requires
        carriable(v),
    ensures
        block_value(block_of(v)) == v,
        block_of(v).len() == 256,
{
    assert(block_value(block_of(v)) =~= v);
}

/// Two blocks are equal exactly when the values are.
proof fn lemma_blocks_equal(a: Seq<u8>, b: Seq<u8>)
    requires
        carriable(a),
    ensures
        (block_of(a) == candidate_block(b)) == (a == b),
{
    if carriable(b) {
        if block_of(a) == block_of(b) {
            assert(block_of(a)[0] == a.len() as u8);
            assert(a.len() == b.len());
            assert forall|k: int| 0 <= k < a.len() implies a[k] == b[k] by {
                assert(block_of(a)[k + 1] == a[k]);
                assert(block_of(b)[k + 1] == b[k]);
            }
            assert(a =~= b);
        }
    } else {
        assert(block_of(a)[0] != zero_block()[0]);
    }
}

spec fn stored_ok(u: StoredUser) -> bool {
    &&& carriable(block_value(u.username@))
    &&& u.username@ == block_of(block_value(u.username@))
    &&& carriable(block_value(u.password@))
    &&& u.password@ == block_of(block_value(u.password@))
}

spec fn stored_view(u: StoredUser) -> StoredView {
    StoredView { name: u.name@, username: block_value(u.username@), password: block_value(u.password@) }
}

impl UserStore {
    /// The users in configuration order.
    pub closed spec fn spec_users(&self) -> Seq<StoredView> {
        self.users@.map_values(|u: StoredUser| stored_view(u))
    }

    #[verifier::type_invariant]
    spec fn wf(&self) -> bool {
        forall|i: int| 0 <= i < self.users@.len() ==> stored_ok(#[trigger] self.users@[i])
    }

    /// The store holds `users` in order: each user's name, and the bytes of its username
    /// and password.
    pub open spec fn built_from(&self, users: Seq<UserCredentials>) -> bool {
        &&& self.spec_users().len() == users.len()
        &&& forall|i: int|
            0 <= i < users.len() ==> {
                let s = #[trigger] self.spec_users()[i];
                &&& s.name == users[i].username@
                &&& s.username == utf8(users[i].username@)
                &&& s.password == utf8(users[i].password@)
            }
    }

    /// # Errors
    /// Empty list, empty or over-long usernames/passwords, duplicate usernames.
    pub fn new(credentials: &[UserCredentials]) -> (r: Result<Self, CredentialError>)
        ensures
            match r {
                Ok(store) => user_list_problem(credentials@) is None && store.built_from(
                    credentials@,
                ),
                Err(e) => user_list_problem(credentials@) == Some(e),
            },
    {
        if credentials.len() == 0 {
            return Err(CredentialError::NoUsers);
        }
        let mut users: Vec<StoredUser> = Vec::new();
        let mut index: usize = 0;
        while index < credentials.len()
            invariant
                index <= credentials@.len(),
                credentials@.len() > 0,
                users@.len() == index,
                forall|i: int| 0 <= i < index ==> user_problem(credentials@, i) is None,
                forall|i: int|
                    0 <= i < index ==> {
                        let u = #[trigger] users@[i];
                        &&& u.name@ == credentials@[i].username@
                        &&& stored_ok(u)
                        &&& block_value(u.username@) == utf8(credentials@[i].username@)
                        &&& block_value(u.password@) == utf8(credentials@[i].password@)
                    },
                first_user_problem(credentials@, 0) == first_user_problem(
                    credentials@,
                    index as int,
                ),
            decreases credentials.len() - index,
        {
            let credential = &credentials[index];
            let username = match to_block(credential.username.as_str().as_bytes()) {
                Some(b) => b,
                None => return Err(CredentialError::InvalidUsername { index }),
            };
            let password = match to_block(credential.password.as_str().as_bytes()) {
                Some(b) => b,
                None => return Err(
                    CredentialError::InvalidPassword { username: credential.username.clone() },
                ),
            };
            let mut j: usize = 0;
            #[verifier::loop_isolation(false)]
            while j < users.len()
                invariant
                    j <= users@.len() == index < credentials@.len(),
                    credential == credentials@[index as int],
                    forall|i: int|
                        0 <= i < index ==> (#[trigger] users@[i]).name@
                            == credentials@[i].username@,
                    forall|i: int| 0 <= i < j ==> credentials@[i].username@ != credential.username@,
                decreases users.len() - j,
            {
                if users[j].name == credential.username {
                    let duplicate = credential.username.clone();
                    proof {
                        assert(credentials@[j as int].username@ == credential.username@);
                        assert(carriable(utf8(credential.username@)));
                        assert(carriable(utf8(credential.password@)));
                        assert(user_problem(credentials@, index as int) == Some(
                            CredentialError::DuplicateUsername(duplicate),
                        ));
                    }
                    return Err(CredentialError::DuplicateUsername(duplicate));
                }
                j = j + 1;
            }
            proof {
                lemma_block_value(utf8(credential.username@));
                lemma_block_value(utf8(credential.password@));
                assert(user_problem(credentials@, index as int) is None);
            }
            users.push(
                StoredUser { name: credential.username.clone(), username, password },
            );
            index = index + 1;
        }
        let store = UserStore { users };
        proof {
            assert(first_user_problem(credentials@, index as int) is None);
        }
        Ok(store)
    }

    /// Returns the username when the pair matches a configured user.
    pub fn verify(&self, username: &[u8], password: &[u8]) -> (r: Option<&str>)
        ensures
            match r {
                Some(name) => exists|i: int|
                    0 <= i < self.spec_users().len() && #[trigger] self.spec_users()[i].username
                        == username@ && self.spec_users()[i].password == password@
                        && self.spec_users()[i].name == name@,
                None => forall|i: int|
                    0 <= i < self.spec_users().len() ==> !(#[trigger] self.spec_users()[i].username
                        == username@ && self.spec_users()[i].password == password@),
            },
    {
        // Empty or over-long input cannot match; it is compared as an all-zero block, which
        // differs from every stored block in the length byte, so the work stays the same.
        let username_block = match to_block(username) {
            Some(b) => b,
            None => zero_block_vec(),
        };
        let password_block = match to_block(password) {
            Some(b) => b,
            None => zero_block_vec(),
        };
        proof {
            use_type_invariant(self);
        }
        let mut matched: Option<&str> = None;
        let mut i: usize = 0;
        while i < self.users.len()
            invariant
                i <= self.users@.len(),
                forall|k: int| 0 <= k < self.users@.len() ==> stored_ok(#[trigger] self.users@[k]),
                username_block@ == candidate_block(username@),
                password_block@ == candidate_block(password@),
                match matched {
                    Some(name) => exists|k: int|
                        0 <= k < i && #[trigger] self.spec_users()[k].username == username@
                            && self.spec_users()[k].password == password@
                            && self.spec_users()[k].name == name@,
                    None => forall|k: int|
                        0 <= k < i ==> !(#[trigger] self.spec_users()[k].username == username@
                            && self.spec_users()[k].password == password@),
                },
            decreases self.users.len() - i,
        {
            let user = &self.users[i];
            // Both comparisons run in full before their results are combined.
            let username_eq = constant_time_eq(user.username.as_slice(), username_block.as_slice());
            let password_eq = constant_time_eq(user.password.as_slice(), password_block.as_slice());
            let is_match = username_eq && password_eq;
            proof {
                assert(stored_ok(*user));
                lemma_blocks_equal(block_value(user.username@), username@);
                lemma_blocks_equal(block_value(user.password@), password@);
                assert(self.spec_users()[i as int] == stored_view(*user));
            }
            if is_match {
                let name = user.name.as_str();
                proof {
                    assert(self.spec_users()[i as int].username == username@);
                    assert(self.spec_users()[i as int].password == password@);
                    assert(self.spec_users()[i as int].name == name@);
                }
                matched = Some(name);
            }
            i = i + 1;
        }
        matched
    }

    /// The configured usernames, in configuration order.
    pub fn usernames(&self) -> (r: Vec<&str>)
        ensures
            r@.len() == self.spec_users().len(),
            forall|i: int| 0 <= i < r@.len() ==> (#[trigger] r@[i])@ == self.spec_users()[i].name,
    {
        let mut out: Vec<&str> = Vec::new();
        let mut i: usize = 0;
        while i < self.users.len()
            invariant
                i <= self.users@.len(),
                out@.len() == i,
                forall|k: int| 0 <= k < i ==> (#[trigger] out@[k])@ == self.spec_users()[k].name,
            decreases self.users.len() - i,
        {
            out.push(self.users[i].name.as_str());
            i = i + 1;
        }
        out
    }

    /// Debug rendering that lists the usernames only: `UserStore { users: ["alice", ...] }`.
    pub fn debug_text(&self) -> (r: String)
        ensures
            r@ == store_debug_text(self.spec_users().map_values(|u: StoredView| u.name)),
    {
        let ghost names = self.spec_users().map_values(|u: StoredView| u.name);
        let mut out: Vec<char> = Vec::new();
        push_str(&mut out, "UserStore { users: [");
        let mut i: usize = 0;
        while i < self.users.len()
            invariant
                i <= self.users@.len(),
                names == self.spec_users().map_values(|u: StoredView| u.name),
                out@ == "UserStore { users: ["@ + quoted_list(names.take(i as int)),
            decreases self.users.len() - i,
        {
            if i > 0 {
                push_str(&mut out, ", ");
            }
            out.push('"');
            push_str(&mut out, self.users[i].name.as_str());
            out.push('"');
            proof {
                let next = names.take(i + 1);
                assert(next.drop_last() =~= names.take(i as int));
                assert(next.last() == self.users@[i as int].name@);
                if i == 0 {
                    assert(names.take(0) =~= Seq::<Seq<char>>::empty());
                }
                assert(out@ =~= "UserStore { users: ["@ + quoted_list(next));
            }
            i = i + 1;
        }
        push_str(&mut out, "] }");
        assert(names.take(names.len() as int) =~= names);
        assert(out@ =~= store_debug_text(names));
        chars_to_string(out.as_slice())
    }

    pub fn len(&self) -> (r: usize)
        ensures
            r == self.spec_users().len(),
    {
        self.users.len()
    }

    pub fn is_empty(&self) -> (r: bool)
        ensures
            r == (self.spec_users().len() == 0),
    {
        self.users.len() == 0
    }
}

} // verus!

verus! {

impl StoredUser {
    fn duplicate(&self) -> (r: Self)
        ensures
            r.name@ == self.name@,
            r.username@ == self.username@,
            r.password@ == self.password@,
    {
        let username = self.username.clone();
        let password = self.password.clone();
        assert(username@ =~= self.username@);
        assert(password@ =~= self.password@);
        StoredUser { name: self.name.clone(), username, password }
    }
}

impl Clone for UserStore {
    fn clone(&self) -> (r: Self)
        ensures
            r.spec_users() == self.spec_users(),
    {
        proof {
            use_type_invariant(self);
        }
        let mut users: Vec<StoredUser> = Vec::new();
        let mut i: usize = 0;
        while i < self.users.len()
            invariant
                i <= self.users@.len(),
                users@.len() == i,
                forall|k: int| 0 <= k < self.users@.len() ==> stored_ok(#[trigger] self.users@[k]),
                forall|k: int|
                    0 <= k < i ==> stored_view(#[trigger] users@[k]) == stored_view(
                        self.users@[k],
                    ) && stored_ok(users@[k]),
            decreases self.users.len() - i,
        {
            let user = self.users[i].duplicate();
            proof {
                assert(stored_ok(self.users@[i as int]));
            }
            users.push(user);
            i = i + 1;
        }
        let r = UserStore { users };
        assert(r.spec_users() =~= self.spec_users());
        r
    }
}

/// The pairs a store built from `users` accepts are exactly the configured ones: a
/// candidate matches a stored user iff it has that user's username and password bytes.
pub proof fn law_store_accepts_configured_pairs(
    store: UserStore,
    users: Seq<UserCredentials>,
    username: Seq<u8>,
    password: Seq<u8>,
)
    requires
        store.built_from(users),
    ensures
        (exists|i: int|
            0 <= i < store.spec_users().len() && #[trigger] store.spec_users()[i].username
                == username && store.spec_users()[i].password == password) <==> (exists|j: int|
            0 <= j < users.len() && utf8((#[trigger] users[j]).username@) == username && utf8(
                users[j].password@,
            ) == password),
{
    if exists|i: int|
        0 <= i < store.spec_users().len() && #[trigger] store.spec_users()[i].username == username
            && store.spec_users()[i].password == password {
        let i = choose|i: int|
            0 <= i < store.spec_users().len() && #[trigger] store.spec_users()[i].username
                == username && store.spec_users()[i].password == password;
        assert(utf8(users[i].username@) == username);
    }
    if exists|j: int|
        0 <= j < users.len() && utf8((#[trigger] users[j]).username@) == username && utf8(
            users[j].password@,
        ) == password {
        let j = choose|j: int|
            0 <= j < users.len() && utf8((#[trigger] users[j]).username@) == username && utf8(
                users[j].password@,
            ) == password;
        assert(store.spec_users()[j].username == username);
    }
}

proof fn lemma_no_problem_from(users: Seq<UserCredentials>, k: int, i: int)
    requires
        0 <= k <= i < users.len(),
        first_user_problem(users, k) is None,
    ensures
        user_problem(users, i) is None,
    decreases i - k,
{
    if k < i {
        lemma_no_problem_from(users, k + 1, i);
    }
}

/// A store built from an accepted user list answers each configured pair with that pair's
/// own username: the pair's bytes are stored, and every stored user with that username's
/// bytes is that user.
pub proof fn law_store_answers_with_own_username(
    store: UserStore,
    users: Seq<UserCredentials>,
    i: int,
)
    requires
        store.built_from(users),
        user_list_problem(users) is None,
        0 <= i < users.len(),
    ensures
        store.spec_users()[i].username == utf8(users[i].username@),
        store.spec_users()[i].password == utf8(users[i].password@),
        store.spec_users()[i].name == users[i].username@,
        forall|j: int|
            0 <= j < store.spec_users().len() && #[trigger] store.spec_users()[j].username
                == utf8(users[i].username@) ==> j == i && store.spec_users()[j].name
                == users[i].username@,
{
    assert forall|j: int|
        0 <= j < store.spec_users().len() && #[trigger] store.spec_users()[j].username == utf8(
            users[i].username@,
        ) implies j == i by {
        vstd::utf8::encode_utf8_decode_utf8(users[i].username@);
        vstd::utf8::encode_utf8_decode_utf8(users[j].username@);
        assert(users[j].username@ == users[i].username@);
        if j < i {
            lemma_no_problem_from(users, 0, i);
            assert(users[j].username@ == users[i].username@);
        } else if i < j {
            lemma_no_problem_from(users, 0, j);
            assert(users[i].username@ == users[j].username@);
        }
    }
}

/// The strings an error about a user list carries are usernames of the list: an error (and
/// so its message) never holds a password.
pub open spec fn names_only_users(e: CredentialError, users: Seq<UserCredentials>) -> bool {
    match e {
        CredentialError::InvalidPassword { username } => exists|i: int|
            0 <= i < users.len() && (#[trigger] users[i]).username == username,
        CredentialError::DuplicateUsername(username) => exists|i: int|
            0 <= i < users.len() && (#[trigger] users[i]).username == username,
        _ => true,
    }
}

proof fn lemma_first_problem_names_users(users: Seq<UserCredentials>, i: int)
    requires
        0 <= i,
    ensures
        first_user_problem(users, i) matches Some(e) ==> names_only_users(e, users),
    decreases users.len() - i,
{
    if i < users.len() {
        lemma_first_problem_names_users(users, i + 1);
        let user = users[i];
        if user_problem(users, i) is Some {
            assert(users[i].username == user.username);
        }
    }
}

/// Refusing a user list never puts a password in the error: the only strings it carries are
/// usernames of the list.
pub proof fn law_user_list_errors_hold_no_password(users: Seq<UserCredentials>)
    ensures
        user_list_problem(users) matches Some(e) ==> names_only_users(e, users),
{
    lemma_first_problem_names_users(users, 0);
}

} // verus!
