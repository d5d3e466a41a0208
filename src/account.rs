use vstd::prelude::*;

verus! {

/// Account class; fixed when the account is created.
#[derive(PartialEq, Eq, Structural, Clone, Copy, Debug)]
pub enum Role {
    Admin,
    User,
}

/// The integer under which a role is stored: 0 for an administrator, 1 for
/// a standard account.
pub open spec fn role_code_spec(r: Role) -> u32 {
    match r {
        Role::Admin => 0,
        Role::User => 1,
    }
}

impl Role {
    /// The role that registration with this administrator flag gives.
    pub fn from_admin_flag(is_admin: bool) -> (r: Role)
        ensures
            r == (if is_admin { Role::Admin } else { Role::User }),
    {
        if is_admin {
            Role::Admin
        } else {
            Role::User
        }
    }

    /// The stored integer of this role.
    pub fn code(&self) -> (r: u32)
        ensures
            r == role_code_spec(*self),
    {
        match self {
            Role::Admin => 0,
            Role::User => 1,
        }
    }

    /// The role stored as `code`, if `code` is one.
    pub fn from_code(code: u32) -> (r: Option<Role>)
        ensures
            code == 0 ==> r == Some(Role::Admin),
            code == 1 ==> r == Some(Role::User),
            code > 1 ==> r.is_none(),
            r matches Some(x) ==> role_code_spec(x) == code,
    {
        if code == 0 {
            Some(Role::Admin)
        } else if code == 1 {
            Some(Role::User)
        } else {
            None
        }
    }
}

/// A registered account.
#[derive(Clone, Debug)]
pub struct Account {
    pub user_name: String,
    pub password: String,
    pub role: Role,
}

pub struct AccountView {
    pub user_name: Seq<char>,
    pub password: Seq<char>,
    pub role: Role,
}

impl View for Account {
    type V = AccountView;

    open spec fn view(&self) -> AccountView {
        AccountView { user_name: self.user_name@, password: self.password@, role: self.role }
    }
}

/// Outcome of a login: the account's role, or why it failed.
#[derive(Clone, Debug)]
pub enum LoginResult {
    Admin,
    User,
    Fail { error: String },
}

pub enum LoginView {
    Admin,
    User,
    Fail(Seq<char>),
}

impl View for LoginResult {
    type V = LoginView;

    open spec fn view(&self) -> LoginView {
        match self {
            LoginResult::Admin => LoginView::Admin,
            LoginResult::User => LoginView::User,
            LoginResult::Fail { error } => LoginView::Fail(error@),
        }
    }
}

/// The description of a store error that is shown to the user.
pub open spec fn error_message_spec(e: StoreError) -> Seq<char> {
    match e {
        StoreError::Conflict => "a banner with this title already exists"@,
        StoreError::UnknownAccount => "the account is not registered"@,
        StoreError::ClockUnavailable => "the clock gave no usable time"@,
    }
}

/// Why a catalog operation was refused.
#[derive(PartialEq, Eq, Structural, Clone, Copy, Debug)]
pub enum StoreError {
    /// The owner already holds a banner with this title.
    Conflict,
    /// The acting account is not registered.
    UnknownAccount,
    /// The clock gave no time that an audit entry can record.
    ClockUnavailable,
}

impl StoreError {
    /// A description of the error for the user.
    pub fn message(&self) -> (r: String)
        ensures
            r@ == error_message_spec(*self),
    {
        match self {
            StoreError::Conflict => String::from_str("a banner with this title already exists"),
            StoreError::UnknownAccount => String::from_str("the account is not registered"),
            StoreError::ClockUnavailable => String::from_str("the clock gave no usable time"),
        }
    }
}

} // verus!
