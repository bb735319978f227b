//! Plain data carried between the application and the token subsystem.

use vstd::prelude::*;

verus! {

/// A user record as the user store hands it over. Identifiers and times
/// are carried as plain values: the id in its canonical string form, the
/// times as seconds since epoch.
#[derive(Clone, Debug)]
pub struct User {
    pub id: String,
    pub username: String,
    pub email: String,
    pub password_hash: String,
    pub password_salt: String,
    /// Comma-separated role names.
    pub roles: String,
    pub created_at: Option<i64>,
    pub updated_at: Option<i64>,
}

/// Health endpoint response data.
#[derive(Debug)]
pub struct HealthCheckResponse {
    pub status: i16,
    pub message: String,
}

/// Pagination request data for listing endpoints.
#[derive(Debug)]
pub struct PaginationParams {
    pub username: String,
    pub runtime: i64,
    pub page: Option<i64>,
    pub per_page: Option<i64>,
}

impl PaginationParams {
    /// The page, page size and row offset this request asks for: page
    /// defaults to 1, page size to 25, and the offset is the number of rows
    /// on the earlier pages. `None` when the arithmetic leaves `i64`.
    pub fn window(&self) -> (r: Option<(i64, i64, i64)>)
        ensures
            r matches Some((page, per_page, offset)) ==> {
                &&& page == if self.page is Some {
                    self.page->0
                } else {
                    1i64
                }
                &&& per_page == if self.per_page is Some {
                    self.per_page->0
                } else {
                    25i64
                }
                &&& offset == (page - 1) * per_page
            },
            r is None ==> {
                let page = if self.page is Some {
                    self.page->0
                } else {
                    1i64
                };
                let per_page = if self.per_page is Some {
                    self.per_page->0
                } else {
                    25i64
                };
                (page - 1) * per_page < i64::MIN || (page - 1) * per_page > i64::MAX
                    || page == i64::MIN
            },
    {
        let page = match self.page {
            Some(p) => p,
            None => 1,
        };
        let per_page = match self.per_page {
            Some(p) => p,
            None => 25,
        };
        if page == i64::MIN {
            return None;
        }
        let base = page - 1;
        let offset = base.checked_mul(per_page);
        match offset {
            Some(o) => Some((page, per_page, o)),
            None => None,
        }
    }
}

/// Login request data.
#[derive(Clone, Debug)]
pub struct LoginUser {
    username: String,
    password: String,
}

impl LoginUser {
    pub fn new(username: String, password: String) -> (r: LoginUser)
        ensures
            r.spec_username() == username@,
            r.spec_password() == password@,
    {
        LoginUser { username, password }
    }

    pub closed spec fn spec_username(&self) -> Seq<char> {
        self.username@
    }

    pub closed spec fn spec_password(&self) -> Seq<char> {
        self.password@
    }

    pub fn username(&self) -> (r: &str)
        ensures
            r@ == self.spec_username(),
    {
        self.username.as_str()
    }

    pub fn password(&self) -> (r: &str)
        ensures
            r@ == self.spec_password(),
    {
        self.password.as_str()
    }
}

} // verus!
