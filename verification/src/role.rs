//! Role tags and their storage encoding.
//!
//! Roles travel as a `|`-joined string at the storage boundary and are
//! parsed into a list on load. No role tag contains the delimiter, so the
//! joined form parses back to the same list.

use vstd::prelude::*;

verus! {

use vstd::string::StrSliceExecFns;

/// A role tag carried by an identity context.
#[derive(Clone, Copy, Debug, PartialEq, Eq, Structural)]
pub enum Role {
    Admin,
    User,
}

/// The storage tag of a role, as it appears in the `|`-joined string.
pub open spec fn role_tag(r: Role) -> Seq<char> {
    match r {
        Role::Admin => "admin"@,
        Role::User => "user"@,
    }
}

/// The role a storage tag denotes, if any.
pub open spec fn parse_role_tag(s: Seq<char>) -> Option<Role> {
    if s == "admin"@ {
        Some(Role::Admin)
    } else if s == "user"@ {
        Some(Role::User)
    } else {
        None
    }
}

/// Position of the first occurrence of `c` in `s`.
pub open spec fn find_char(s: Seq<char>, c: char) -> Option<int>
    decreases s.len(),
{
    if s.len() == 0 {
        None
    } else if s[0] == c {
        Some(0)
    } else {
        match find_char(s.skip(1), c) {
            Some(i) => Some(i + 1),
            None => None,
        }
    }
}

pub proof fn lemma_find_char(s: Seq<char>, c: char)
    ensures
        match find_char(s, c) {
            Some(i) => 0 <= i < s.len() && s[i] == c && (forall|j: int| 0 <= j < i ==> s[j] != c),
            None => forall|j: int| 0 <= j < s.len() ==> s[j] != c,
        },
    decreases s.len(),
{
    if s.len() > 0 && s[0] != c {
        lemma_find_char(s.skip(1), c);
        match find_char(s.skip(1), c) {
            Some(i) => {
                assert(s[i + 1] == s.skip(1)[i]);
                assert forall|j: int| 0 <= j < i + 1 implies s[j] != c by {
                    if j >= 1 {
                        assert(s[j] == s.skip(1)[j - 1]);
                    }
                }
            },
            None => {
                assert forall|j: int| 0 <= j < s.len() implies s[j] != c by {
                    if j >= 1 {
                        assert(s[j] == s.skip(1)[j - 1]);
                    }
                }
            },
        }
    }
}

/// The role list a `|`-joined string denotes, if every segment is a tag.
pub open spec fn parse_roles_chars(s: Seq<char>) -> Option<Seq<Role>>
    decreases s.len(),
{
    match find_char(s, '|') {
        None => match parse_role_tag(s) {
            Some(r) => Some(seq![r]),
            None => None,
        },
        Some(i) => if 0 <= i < s.len() {
            match (parse_role_tag(s.take(i)), parse_roles_chars(s.skip(i + 1))) {
                (Some(r), Some(rest)) => Some(seq![r] + rest),
                _ => None,
            }
        } else {
            None
        },
    }
}

impl Role {
    /// The storage tag of this role.
    pub fn as_str(&self) -> (r: &'static str)
        ensures
            r@ == role_tag(*self),
    {
        match self {
            Role::Admin => "admin",
            Role::User => "user",
        }
    }

    /// Parses a single storage tag.
    pub fn parse_tag(s: &str) -> (r: Result<Role, &'static str>)
        ensures
            match parse_role_tag(s@) {
                Some(role) => r == Ok::<Role, &'static str>(role),
                None => r is Err,
            },
    {
        proof {
            reveal_strlit("admin");
            reveal_strlit("user");
        }
        let n = s.unicode_len();
        if n == 5 && s.get_char(0) == 'a' && s.get_char(1) == 'd' && s.get_char(2) == 'm'
            && s.get_char(3) == 'i' && s.get_char(4) == 'n' {
            proof {
                assert(s@ =~= "admin"@);
            }
            Ok(Role::Admin)
        } else if n == 4 && s.get_char(0) == 'u' && s.get_char(1) == 's' && s.get_char(2) == 'e'
            && s.get_char(3) == 'r' {
            proof {
                assert(s@ =~= "user"@);
            }
            Ok(Role::User)
        } else {
            proof {
                assert(s@ != "admin"@);
                assert(s@ != "user"@);
            }
            Err("invalid role")
        }
    }

    /// Parses a `|`-joined role string into the role list it denotes.
    pub fn parse_roles(roles: &str) -> (r: Result<Vec<Role>, &'static str>)
        ensures
            match parse_roles_chars(roles@) {
                Some(rs) => r is Ok && (r matches Ok(v) ==> v@ == rs),
                None => r is Err,
            },
        decreases roles@.len(),
    {
        proof {
            lemma_find_char(roles@, '|');
        }
        let n = roles.unicode_len();
        let mut sep: usize = 0;
        let mut found: bool = false;
        while sep < n && !found
            invariant
                sep <= n,
                n == roles@.len(),
                found ==> sep < n && roles@[sep as int] == '|',
                forall|j: int| 0 <= j < sep ==> roles@[j] != '|',
            decreases n - sep, (if found { 0int } else { 1int }),
        {
            if roles.get_char(sep) == '|' {
                found = true;
            } else {
                sep = sep + 1;
            }
        }
        proof {
            match find_char(roles@, '|') {
                Some(i) => {
                    if found {
                        if i > sep {
                            assert(roles@[sep as int] != '|');
                        }
                    } else {
                        assert(roles@[i] == '|');
                    }
                },
                None => {
                    if found {
                        assert(roles@[sep as int] != '|');
                    }
                },
            }
        }
        if !found {
            proof {
                assert(find_char(roles@, '|') is None);
            }
            match Role::parse_tag(roles) {
                Ok(role) => {
                    let mut v: Vec<Role> = Vec::new();
                    v.push(role);
                    proof {
                        assert(v@ =~= seq![role]);
                    }
                    Ok(v)
                },
                Err(e) => Err(e),
            }
        } else {
            proof {
                assert(find_char(roles@, '|') == Some(sep as int));
            }
            let head = roles.substring_char(0, sep);
            let tail = roles.substring_char(sep + 1, n);
            proof {
                assert(head@ =~= roles@.take(sep as int));
                assert(tail@ =~= roles@.skip(sep + 1));
            }
            let first = match Role::parse_tag(head) {
                Ok(role) => role,
                Err(e) => {
                    return Err(e);
                },
            };
            match Role::parse_roles(tail) {
                Ok(mut rest) => {
                    rest.insert(0, first);
                    proof {
                        let rs = parse_roles_chars(roles@).unwrap();
                        assert(rest@ =~= rs);
                    }
                    Ok(rest)
                },
                Err(e) => Err(e),
            }
        }
    }
}

/// Consecutive duplicates removed, first occurrence kept.
pub open spec fn dedup_adjacent(roles: Seq<Role>) -> Seq<Role>
    decreases roles.len(),
{
    if roles.len() <= 1 {
        roles
    } else if roles[0] == roles[1] {
        dedup_adjacent(roles.skip(1))
    } else {
        seq![roles[0]] + dedup_adjacent(roles.skip(1))
    }
}

/// Role tags joined with the `|` delimiter.
pub open spec fn join_roles_chars(roles: Seq<Role>) -> Seq<char>
    decreases roles.len(),
{
    if roles.len() == 0 {
        Seq::empty()
    } else if roles.len() == 1 {
        role_tag(roles[0])
    } else {
        role_tag(roles[0]) + seq!['|'] + join_roles_chars(roles.skip(1))
    }
}

/// The storage string of a role list: consecutive duplicates dropped,
/// then tags joined with `|`.
pub open spec fn roles_store_chars(roles: Seq<Role>) -> Seq<char> {
    join_roles_chars(dedup_adjacent(roles))
}

proof fn lemma_dedup_snoc(s: Seq<Role>, x: Role)
    ensures
        dedup_adjacent(s.push(x)) == if s.len() > 0 && s.last() == x {
            dedup_adjacent(s)
        } else {
            dedup_adjacent(s).push(x)
        },
    decreases s.len(),
{
    if s.len() == 0 {
        assert(s.push(x) =~= seq![x]);
        assert(dedup_adjacent(seq![x]) =~= seq![x]);
        assert(dedup_adjacent(s).push(x) =~= seq![x]);
    } else if s.len() == 1 {
        assert(s.push(x).skip(1) =~= seq![x]);
        if s[0] == x {
            assert(dedup_adjacent(s.push(x)) == dedup_adjacent(seq![x]));
            assert(dedup_adjacent(seq![x]) =~= seq![x]);
            assert(dedup_adjacent(s) =~= s);
        } else {
            assert(dedup_adjacent(s.push(x)) == seq![s[0]] + dedup_adjacent(seq![x]));
            assert(seq![s[0]] + dedup_adjacent(seq![x]) =~= dedup_adjacent(s).push(x));
        }
    } else {
        lemma_dedup_snoc(s.skip(1), x);
        assert(s.push(x).skip(1) =~= s.skip(1).push(x));
        assert(s.push(x)[0] == s[0]);
        assert(s.push(x)[1] == s[1]);
        assert(s.skip(1).last() == s.last());
        if s[0] == s[1] {
            assert(dedup_adjacent(s.push(x)) == dedup_adjacent(s.skip(1).push(x)));
        } else {
            assert(dedup_adjacent(s.push(x)) == seq![s[0]] + dedup_adjacent(s.skip(1).push(x)));
            if !(s.last() == x) {
                assert(seq![s[0]] + dedup_adjacent(s.skip(1)).push(x) =~= (seq![s[0]]
                    + dedup_adjacent(s.skip(1))).push(x));
            }
        }
    }
}

proof fn lemma_join_snoc(s: Seq<Role>, x: Role)
    ensures
        join_roles_chars(s.push(x)) == if s.len() == 0 {
            role_tag(x)
        } else {
            join_roles_chars(s) + seq!['|'] + role_tag(x)
        },
    decreases s.len(),
{
    if s.len() == 0 {
        assert(s.push(x).len() == 1);
        assert(s.push(x)[0] == x);
    } else if s.len() == 1 {
        assert(s.push(x).skip(1) =~= seq![x]);
        assert(join_roles_chars(seq![x]) == role_tag(x));
        assert(s.push(x)[0] == s[0]);
    } else {
        lemma_join_snoc(s.skip(1), x);
        assert(s.push(x).skip(1) =~= s.skip(1).push(x));
        assert(s.push(x)[0] == s[0]);
        assert(role_tag(s[0]) + seq!['|'] + (join_roles_chars(s.skip(1)) + seq!['|'] + role_tag(x))
            =~= (role_tag(s[0]) + seq!['|'] + join_roles_chars(s.skip(1))) + seq!['|'] + role_tag(
            x,
        ));
    }
}

/// Joins a role list into its storage string: consecutive duplicates are
/// dropped and the remaining tags joined with `|`.
pub fn join_roles(roles: &Vec<Role>) -> (r: String)
    ensures
        r@ == roles_store_chars(roles@),
{
    let mut uniq: Vec<Role> = Vec::new();
    let mut i: usize = 0;
    while i < roles.len()
        invariant
            i <= roles@.len(),
            uniq@ == dedup_adjacent(roles@.subrange(0, i as int)),
        decreases roles@.len() - i,
    {
        let ghost pre = roles@.subrange(0, i as int);
        let keep = if uniq.len() == 0 {
            true
        } else {
            uniq[uniq.len() - 1] != roles[i]
        };
        proof {
            lemma_dedup_snoc(pre, roles@[i as int]);
            assert(pre.push(roles@[i as int]) =~= roles@.subrange(0, i + 1));
            lemma_dedup_last(pre);
        }
        if keep {
            uniq.push(roles[i]);
        }
        i = i + 1;
    }
    proof {
        assert(roles@.subrange(0, roles@.len() as int) =~= roles@);
    }
    let mut out = String::new();
    let mut j: usize = 0;
    while j < uniq.len()
        invariant
            j <= uniq@.len(),
            uniq@ == dedup_adjacent(roles@),
            out@ == join_roles_chars(uniq@.subrange(0, j as int)),
        decreases uniq@.len() - j,
    {
        let ghost pre = uniq@.subrange(0, j as int);
        if j > 0 {
            out.append("|");
            proof {
                reveal_strlit("|");
                assert("|"@ =~= seq!['|']);
            }
        }
        out.append(uniq[j].as_str());
        proof {
            lemma_join_snoc(pre, uniq@[j as int]);
            assert(pre.push(uniq@[j as int]) =~= uniq@.subrange(0, j + 1));
        }
        j = j + 1;
    }
    proof {
        assert(uniq@.subrange(0, uniq@.len() as int) =~= uniq@);
    }
    out
}

/// Where the first `c` is known, `find_char` returns it.
proof fn lemma_find_char_at(s: Seq<char>, c: char, i: int)
    requires
        0 <= i < s.len(),
        s[i] == c,
        forall|j: int| 0 <= j < i ==> s[j] != c,
    ensures
        find_char(s, c) == Some(i),
{
    lemma_find_char(s, c);
    match find_char(s, c) {
        Some(k) => {
            if k < i {
                assert(s[k] != c);
            } else if k > i {
                assert(s[i] != c);
            }
        },
        None => {
            assert(s[i] != c);
        },
    }
}

/// No role tag contains the delimiter.
proof fn lemma_tag_no_delim(r: Role)
    ensures
        forall|j: int| 0 <= j < role_tag(r).len() ==> #[trigger] role_tag(r)[j] != '|',
        parse_role_tag(role_tag(r)) == Some(r),
{
    reveal_strlit("admin");
    reveal_strlit("user");
    assert("admin"@.len() == 5);
    assert("user"@.len() == 4);
    assert("admin"@ != "user"@);
}

proof fn lemma_parse_join(d: Seq<Role>)
    requires
        d.len() > 0,
    ensures
        parse_roles_chars(join_roles_chars(d)) == Some(d),
    decreases d.len(),
{
    reveal_strlit("admin");
    reveal_strlit("user");
    lemma_tag_no_delim(d[0]);
    let t = role_tag(d[0]);
    if d.len() == 1 {
        let s = join_roles_chars(d);
        assert(s == t);
        lemma_find_char(s, '|');
        match find_char(s, '|') {
            Some(i) => {
                assert(s[i] != '|');
            },
            None => {
            },
        }
        assert(parse_roles_chars(s) == Some(seq![d[0]]));
        assert(seq![d[0]] =~= d);
    } else {
        lemma_parse_join(d.skip(1));
        let s = join_roles_chars(d);
        let rest = join_roles_chars(d.skip(1));
        assert(s == t + seq!['|'] + rest);
        let k = t.len() as int;
        assert forall|j: int| 0 <= j < k implies s[j] != '|' by {
            assert(s[j] == t[j]);
        }
        assert(s[k] == '|');
        lemma_find_char_at(s, '|', k);
        assert(s.take(k) =~= t);
        assert(s.skip(k + 1) =~= rest);
        assert(parse_roles_chars(s) == Some(seq![d[0]] + d.skip(1)));
        assert(seq![d[0]] + d.skip(1) =~= d);
    }
}

/// The storage round trip: joining a non-empty role list and parsing the
/// string back yields the list with consecutive duplicates dropped. The
/// delimiter never occurs inside a tag, so the joined form is unambiguous.
pub proof fn lemma_roles_store_round_trip(roles: Seq<Role>)
    requires
        roles.len() > 0,
    ensures
        parse_roles_chars(roles_store_chars(roles)) == Some(dedup_adjacent(roles)),
{
    lemma_dedup_last(roles);
    lemma_parse_join(dedup_adjacent(roles));
}

/// The dedup of a list keeps its last element last.
proof fn lemma_dedup_last(s: Seq<Role>)
    ensures
        s.len() == 0 ==> dedup_adjacent(s).len() == 0,
        s.len() > 0 ==> dedup_adjacent(s).len() > 0 && dedup_adjacent(s).last() == s.last(),
    decreases s.len(),
{
    if s.len() > 1 {
        lemma_dedup_last(s.skip(1));
        assert(s.skip(1).last() == s.last());
    }
}

} // verus!
