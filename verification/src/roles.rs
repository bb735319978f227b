//! Role-based authorization: a claims set carries a comma-separated role
//! string; a role matches when one comma-separated entry, with surrounding
//! whitespace trimmed, equals the role's canonical name.

use vstd::prelude::*;

use crate::errors::AuthError;

verus! {

/// The Unicode `White_Space` code points, as `char::is_whitespace` defines
/// them.
pub open spec fn is_space(c: char) -> bool {
    let u = c as u32;
    u == 0x09 || u == 0x0A || u == 0x0B || u == 0x0C || u == 0x0D || u == 0x20 || u == 0x85 || u
        == 0xA0 || u == 0x1680 || (0x2000 <= u <= 0x200A) || u == 0x2028 || u == 0x2029 || u
        == 0x202F || u == 0x205F || u == 0x3000
}

pub open spec fn trim_start_spec(s: Seq<char>) -> Seq<char>
    decreases s.len(),
{
    if s.len() > 0 && is_space(s[0]) {
        trim_start_spec(s.drop_first())
    } else {
        s
    }
}

pub open spec fn trim_end_spec(s: Seq<char>) -> Seq<char>
    decreases s.len(),
{
    if s.len() > 0 && is_space(s.last()) {
        trim_end_spec(s.drop_last())
    } else {
        s
    }
}

/// Whitespace-trimmed form of `s`.
pub open spec fn trim_spec(s: Seq<char>) -> Seq<char> {
    trim_end_spec(trim_start_spec(s))
}

/// The canonical name of the administrator role.
pub open spec fn admin_chars() -> Seq<char> {
    seq!['a', 'd', 'm', 'i', 'n']
}

/// Index of the first comma in `s`, or -1.
pub open spec fn find_comma(s: Seq<char>) -> int
    decreases s.len(),
{
    if s.len() == 0 {
        -1
    } else if s[0] == ',' {
        0
    } else {
        let r = find_comma(s.drop_first());
        if r < 0 {
            -1
        } else {
            r + 1
        }
    }
}

/// Whether some comma-separated entry of `s`, trimmed, is exactly the
/// administrator role name.
pub open spec fn roles_contain_admin(s: Seq<char>) -> bool
    decreases s.len(),
{
    let f = find_comma(s);
    if 0 <= f < s.len() {
        trim_spec(s.take(f)) == admin_chars() || roles_contain_admin(s.skip(f + 1))
    } else {
        trim_spec(s) == admin_chars()
    }
}

/// Characterizes `find_comma` by its first-match property.
proof fn lemma_find_comma_at(s: Seq<char>, k: int)
    requires
        0 <= k <= s.len(),
        forall|m: int| 0 <= m < k ==> s[m] != ',',
        k < s.len() ==> s[k] == ',',
    ensures
        k < s.len() ==> find_comma(s) == k,
        k == s.len() ==> find_comma(s) == -1,
    decreases s.len(),
{
    if s.len() == 0 {
    } else if s[0] == ',' {
        assert(k == 0);
    } else {
        assert(k >= 1);
        let d = s.drop_first();
        assert(forall|m: int| 0 <= m < k - 1 ==> d[m] == s[m + 1] && d[m] != ',');
        assert(k - 1 < d.len() ==> d[k - 1] == s[k]);
        lemma_find_comma_at(d, k - 1);
    }
}

/// Characterizes the trimmed range: if the characters before `a` and from
/// `b` on are whitespace and the boundary characters are not, the trimmed
/// string is exactly the middle.
proof fn lemma_trim_start_range(s: Seq<char>, a: int)
    requires
        0 <= a <= s.len(),
        forall|m: int| 0 <= m < a ==> is_space(s[m]),
        a < s.len() ==> !is_space(s[a]),
    ensures
        trim_start_spec(s) == s.skip(a),
    decreases a,
{
    if a == 0 {
        if s.len() > 0 && is_space(s[0]) {
            assert(false);
        }
        assert(s.skip(0) =~= s);
    } else {
        let d = s.drop_first();
        assert(forall|m: int| 0 <= m < a - 1 ==> d[m] == s[m + 1] && is_space(d[m]));
        assert(a - 1 < d.len() ==> d[a - 1] == s[a]);
        lemma_trim_start_range(d, a - 1);
        assert(d.skip(a - 1) =~= s.skip(a));
    }
}

proof fn lemma_trim_end_range(s: Seq<char>, b: int)
    requires
        0 <= b <= s.len(),
        forall|m: int| b <= m < s.len() ==> is_space(s[m]),
        b > 0 ==> !is_space(s[b - 1]),
    ensures
        trim_end_spec(s) == s.take(b),
    decreases s.len() - b,
{
    if b == s.len() {
        if s.len() > 0 && is_space(s.last()) {
            assert(false);
        }
        assert(s.take(b) =~= s);
    } else {
        let d = s.drop_last();
        assert(is_space(s.last()));
        assert(forall|m: int| b <= m < d.len() ==> d[m] == s[m]);
        lemma_trim_end_range(d, b);
        assert(d.take(b) =~= s.take(b));
    }
}

/// Whether `c` is whitespace, as executable code.
fn is_space_exec(c: char) -> (r: bool)
    ensures
        r == is_space(c),
{
    let u = c as u32;
    u == 0x09 || u == 0x0A || u == 0x0B || u == 0x0C || u == 0x0D || u == 0x20 || u == 0x85 || u
        == 0xA0 || u == 0x1680 || (0x2000 <= u && u <= 0x200A) || u == 0x2028 || u == 0x2029 || u
        == 0x202F || u == 0x205F || u == 0x3000
}

/// Whether the characters of `s` from `from` to `to`, trimmed, equal the
/// administrator role name.
fn segment_is_admin(s: &str, from: usize, to: usize) -> (r: bool)
    requires
        from <= to <= s@.len(),
        s@.len() <= usize::MAX,
    ensures
        r == (trim_spec(s@.subrange(from as int, to as int)) == admin_chars()),
{
    let ghost seg = s@.subrange(from as int, to as int);
    let mut a = from;
    while a < to && is_space_exec(s.get_char(a))
        invariant
            from <= a <= to <= s@.len(),
            forall|m: int| from <= m < a ==> is_space(s@[m]),
        decreases to - a,
    {
        a += 1;
    }
    let mut b = to;
    while b > a && is_space_exec(s.get_char(b - 1))
        invariant
            a <= b <= to,
            a <= to <= s@.len(),
            forall|m: int| b <= m < to ==> is_space(s@[m]),
        decreases b,
    {
        b -= 1;
    }
    proof {
        assert(forall|m: int| 0 <= m < seg.len() ==> seg[m] == s@[from + m]);
        lemma_trim_start_range(seg, a - from);
        let mid = seg.skip(a - from);
        assert(forall|m: int| 0 <= m < mid.len() ==> mid[m] == s@[a + m]);
        lemma_trim_end_range(mid, b - a);
        assert(trim_spec(seg) == mid.take(b - a));
        assert(forall|m: int| 0 <= m < b - a ==> trim_spec(seg)[m] == s@[a + m]);
    }
    if b - a != 5 {
        proof {
            assert(trim_spec(seg).len() == b - a);
        }
        return false;
    }
    let r = s.get_char(a) == 'a' && s.get_char(a + 1) == 'd' && s.get_char(a + 2) == 'm'
        && s.get_char(a + 3) == 'i' && s.get_char(a + 4) == 'n';
    proof {
        if r {
            assert(trim_spec(seg) =~= admin_chars());
        } else {
            assert(trim_spec(seg) != admin_chars());
        }
    }
    r
}

/// Whether the comma-separated role list `roles` contains the administrator
/// role (entries are compared after trimming whitespace). An empty string
/// contains nothing.
pub fn contains_role_admin(roles: &str) -> (r: bool)
    ensures
        r == roles_contain_admin(roles@),
{
    let n = roles.unicode_len();
    let mut i: usize = 0;
    proof {
        assert(roles@.skip(0) =~= roles@);
    }
    loop
        invariant
            i <= n,
            n == roles@.len(),
            n <= usize::MAX,
            roles_contain_admin(roles@) == roles_contain_admin(roles@.skip(i as int)),
        decreases n - i,
    {
        let ghost p = roles@.skip(i as int);
        let mut j = i;
        while j < n && roles.get_char(j) != ','
            invariant
                i <= j <= n,
                n == roles@.len(),
                forall|m: int| i <= m < j ==> roles@[m] != ',',
            decreases n - j,
        {
            j += 1;
        }
        proof {
            assert(forall|m: int| 0 <= m < j - i ==> p[m] == roles@[i + m] && p[m] != ',');
            if j < n {
                assert(p[j - i] == roles@[j as int] && p[j - i] == ',');
            }
            lemma_find_comma_at(p, j - i);
        }
        if segment_is_admin(roles, i, j) {
            proof {
                assert(p.take(j - i) =~= roles@.subrange(i as int, j as int));
                if j < n {
                    assert(roles_contain_admin(p));
                } else {
                    assert(p =~= roles@.subrange(i as int, j as int));
                    assert(roles_contain_admin(p));
                }
            }
            return true;
        }
        if j == n {
            proof {
                assert(p =~= roles@.subrange(i as int, j as int));
                assert(!roles_contain_admin(p));
            }
            return false;
        }
        proof {
            assert(p.take(j - i) =~= roles@.subrange(i as int, j as int));
            assert(p.skip(j - i + 1) =~= roles@.skip(j as int + 1));
            assert(roles_contain_admin(p) == roles_contain_admin(roles@.skip(j as int + 1)));
        }
        i = j + 1;
    }
}

/// Fails with `Forbidden` unless `roles` contains the administrator role.
pub fn is_role_admin(roles: &str) -> (r: Result<(), AuthError>)
    ensures
        r is Ok <==> roles_contain_admin(roles@),
        r is Err ==> r == Err::<(), AuthError>(AuthError::Forbidden),
{
    if !contains_role_admin(roles) {
        return Err(AuthError::Forbidden);
    }
    Ok(())
}

/// User roles with special authorization meaning.
#[derive(Copy, Clone, Debug, PartialEq, Eq, Structural)]
pub enum UserRole {
    Admin,
}

impl UserRole {
    /// The canonical name of this role.
    pub fn name(&self) -> (r: &'static str)
        ensures
            r@ == admin_chars(),
    {
        proof {
            reveal_strlit("admin");
        }
        "admin"
    }

    /// The role a canonical name stands for, or `None` for an unknown name.
    pub fn from_name(value: &str) -> (r: Option<UserRole>)
        ensures
            r is Some <==> value@ == admin_chars(),
            r matches Some(role) ==> role == UserRole::Admin,
    {
        proof {
            reveal_strlit("admin");
            assert("admin"@ =~= admin_chars());
        }
        if crate::strings::str_eq(value, "admin") {
            Some(UserRole::Admin)
        } else {
            None
        }
    }

    /// Whether this role is the administrator role.
    pub fn is_role_admin(&self) -> (r: bool)
        ensures
            r == (*self == UserRole::Admin),
    {
        *self == UserRole::Admin
    }
}

} // verus!
