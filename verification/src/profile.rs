//! Signed-in users: the profile read from a directory entry, the student
//! number decoded, and the context handed to the assistant.

use vstd::prelude::*;
use crate::text::{same_chars, chars_of, copy_chars, digits_value, is_digit, join, parse_bounded, parse_unsigned, slice_of, split, split_by, string_from, views};

verus! {

/// Who a signed-in user is.
#[derive(Debug, Clone, Copy, PartialEq, Eq, Structural)]
pub enum ProfileRole {
    Student,
    Employee,
    Admin,
}

/// What a student number encodes.
#[derive(Debug, Clone)]
pub struct StudentInfo {
    pub faculty_code: String,
    pub enrolment_year: u16,
    pub study_level: u8,
    pub seq_number: u16,
}

/// A signed-in user with the directory attributes of the entry, each name
/// with its values, in the order the directory gave them; no name occurs
/// twice (`wf`).
#[derive(Debug, Clone)]
pub struct Profile {
    pub role: ProfileRole,
    pub username: String,
    pub raw_attributes: Vec<(String, Vec<String>)>,
}

/// No attribute name occurs twice.
pub open spec fn keys_unique(attrs: Seq<(String, Vec<String>)>) -> bool {
    forall|i: int, j: int| 0 <= i < j < attrs.len() ==> (#[trigger] attrs[i]).0@ != (#[trigger] attrs[j]).0@
}

impl Profile {
    /// The profile's attributes have distinct names.
    pub open spec fn wf(&self) -> bool {
        keys_unique(self.raw_attributes@)
    }
}

/* ------------------------------------------------------------------ */
/*  The user name in a distinguished name                               */
/* ------------------------------------------------------------------ */

/// The value of the first `name=value` part of a distinguished name: the text
/// between the first `=` and the next `=` of the part before the first comma.
pub open spec fn uid_of(dn: Seq<char>) -> Option<Seq<char>> {
    let chunk = split(dn, ","@)[0];
    let parts = split(chunk, "="@);
    if parts.len() >= 2 {
        Some(parts[1])
    } else {
        None
    }
}

/// The error for a distinguished name without a value.
pub open spec fn no_uid_message() -> Seq<char> {
    "Could not extract uid value from ldap string"@
}

proof fn lemma_split_nonempty(s: Seq<char>, p: Seq<char>)
    ensures
        split(s, p).len() >= 1,
    decreases s.len(),
{
    if p.len() > 0 {
        let k = crate::text::find(s, p);
        if k >= 0 {
            crate::text::lemma_find(s, p);
            lemma_split_nonempty(s.skip(k + p.len()), p);
        }
    }
}

/// Reads the user name from a distinguished name such as `uid=jdoe,ou=...`.
pub fn extract_uid(ldap_resp: &str) -> (r: Result<String, String>)
    ensures
        match r {
            Ok(u) => uid_of(ldap_resp@) == Some(u@),
            Err(m) => uid_of(ldap_resp@) is None && m@ == no_uid_message(),
        },
{
    let s = chars_of(ldap_resp);
    let comma = chars_of(",");
    let eq = chars_of("=");
    proof {
        reveal_strlit(",");
        reveal_strlit("=");
    }
    let chunks = split_by(&s, comma.as_slice());
    proof {
        lemma_split_nonempty(s@, ","@);
    }
    let parts = split_by(&chunks[0], eq.as_slice());
    if parts.len() >= 2 {
        proof {
            assert(views(chunks@)[0] == chunks@[0]@);
            assert(views(parts@)[1] == parts@[1]@);
        }
        Ok(string_from(parts[1].as_slice()))
    } else {
        proof {
            assert(views(chunks@)[0] == chunks@[0]@);
        }
        Err(String::from_str("Could not extract uid value from ldap string"))
    }
}

impl Profile {
    /// The profile of a student from the distinguished name the directory returned.
    pub fn try_from_student_string(ldap_resp: String, attrs: Vec<(String, Vec<String>)>) -> (r: Result<Profile, String>)
        requires
            keys_unique(attrs@),
        ensures
            match r {
                Ok(p) => uid_of(ldap_resp@) == Some(p.username@) && p.role == ProfileRole::Student
                    && p.raw_attributes == attrs && p.wf(),
                Err(m) => uid_of(ldap_resp@) is None && m@ == no_uid_message(),
            },
    {
        match extract_uid(ldap_resp.as_str()) {
            Ok(username) => Ok(Profile { role: ProfileRole::Student, username, raw_attributes: attrs }),
            Err(m) => Err(m),
        }
    }

    /// The profile of an employee from the distinguished name the directory returned.
    pub fn try_from_employee_string(ldap_resp: String, attrs: Vec<(String, Vec<String>)>) -> (r: Result<Profile, String>)
        requires
            keys_unique(attrs@),
        ensures
            match r {
                Ok(p) => uid_of(ldap_resp@) == Some(p.username@) && p.role == ProfileRole::Employee
                    && p.raw_attributes == attrs && p.wf(),
                Err(m) => uid_of(ldap_resp@) is None && m@ == no_uid_message(),
            },
    {
        match extract_uid(ldap_resp.as_str()) {
            Ok(username) => Ok(Profile { role: ProfileRole::Employee, username, raw_attributes: attrs }),
            Err(m) => Err(m),
        }
    }
}

/* ------------------------------------------------------------------ */
/*  Attributes                                                          */
/* ------------------------------------------------------------------ */

/// The attributes as values.
pub open spec fn attrs_view(a: Seq<(String, Vec<String>)>) -> Seq<(Seq<char>, Seq<Seq<char>>)> {
    a.map_values(|x: (String, Vec<String>)| (x.0@, x.1@.map_values(|v: String| v@)))
}

/// The values of the first attribute called `key`.
pub open spec fn lookup(attrs: Seq<(Seq<char>, Seq<Seq<char>>)>, key: Seq<char>) -> Option<Seq<Seq<char>>>
    decreases attrs.len(),
{
    if attrs.len() == 0 {
        None
    } else if attrs[0].0 == key {
        Some(attrs[0].1)
    } else {
        lookup(attrs.drop_first(), key)
    }
}

/// The first value of attribute `key`, if it has one.
pub open spec fn first_value(attrs: Seq<(Seq<char>, Seq<Seq<char>>)>, key: Seq<char>) -> Option<Seq<char>> {
    match lookup(attrs, key) {
        Some(vs) => if vs.len() > 0 {
            Some(vs[0])
        } else {
            None
        },
        None => None,
    }
}

fn values_of<'a>(attrs: &'a Vec<(String, Vec<String>)>, key: &str) -> (r: Option<&'a Vec<String>>)
    ensures
        match r {
            Some(vs) => lookup(attrs_view(attrs@), key@) == Some(vs@.map_values(|v: String| v@)),
            None => lookup(attrs_view(attrs@), key@) is None,
        },
{
    let ghost av = attrs_view(attrs@);
    let mut i: usize = 0;
    proof {
        assert(av.skip(0) =~= av);
    }
    while i < attrs.len()
        invariant
            i <= attrs.len() == av.len(),
            av == attrs_view(attrs@),
            lookup(av, key@) == lookup(av.skip(i as int), key@),
        decreases attrs.len() - i,
    {
        proof {
            assert(av.skip(i as int)[0] == av[i as int]);
            assert(av.skip(i as int).drop_first() =~= av.skip(i + 1));
        }
        proof {
            assert(av[i as int] == (attrs@[i as int].0@, attrs@[i as int].1@.map_values(|v: String| v@)));
        }
        if same_chars(&chars_of(attrs[i].0.as_str()), &chars_of(key)) {
            return Some(&attrs[i].1);
        }
        i = i + 1;
    }
    None
}

fn first_value_of(attrs: &Vec<(String, Vec<String>)>, key: &str) -> (r: Option<String>)
    ensures
        match r {
            Some(v) => first_value(attrs_view(attrs@), key@) == Some(v@),
            None => first_value(attrs_view(attrs@), key@) is None,
        },
{
    match values_of(attrs, key) {
        Some(vs) => if vs.len() > 0 {
            Some(vs[0].clone())
        } else {
            None
        },
        None => None,
    }
}

/* ------------------------------------------------------------------ */
/*  Student numbers                                                     */
/* ------------------------------------------------------------------ */

/// The ASCII digits of a text, in order.
pub open spec fn digits_only(s: Seq<char>) -> Seq<char>
    decreases s.len(),
{
    if s.len() == 0 {
        Seq::empty()
    } else if is_digit(s.last()) {
        digits_only(s.drop_last()).push(s.last())
    } else {
        digits_only(s.drop_last())
    }
}

/// The student number: the first `uid` value, or, with no `uid`
/// attribute, the first `eduPersonNickname` value.
pub open spec fn student_number(attrs: Seq<(Seq<char>, Seq<Seq<char>>)>) -> Option<Seq<char>> {
    match lookup(attrs, "uid"@) {
        Some(vs) => if vs.len() > 0 {
            Some(vs[0])
        } else {
            None
        },
        None => first_value(attrs, "eduPersonNickname"@),
    }
}

/// What a student number encodes, as values: faculty, enrolment year,
/// study level and sequence number, in the format `XX YYY L SSS`. Of its
/// digits (at least eight), the first two are the faculty, the next three the
/// enrolment year, the next one the level and the rest the sequence number,
/// which must fit in 16 bits.
pub open spec fn decoded_student(attrs: Seq<(Seq<char>, Seq<Seq<char>>)>) -> Option<(Seq<char>, nat, nat, nat)> {
    match student_number(attrs) {
        Some(raw) => {
            let d = digits_only(raw);
            if d.len() < 8 {
                None
            } else {
                match (parse_unsigned(d.subrange(2, 5), 0xffff), parse_unsigned(d.subrange(5, 6), 0xff),
                    parse_unsigned(d.skip(6), 0xffff)) {
                    (Some(y), Some(l), Some(q)) => Some((d.take(2), y, l, q)),
                    _ => None,
                }
            }
        },
        None => None,
    }
}

fn digits_of(s: &str) -> (r: Vec<char>)
    ensures
        r@ == digits_only(s@),
{
    let c = chars_of(s);
    let mut r: Vec<char> = Vec::new();
    let mut i: usize = 0;
    proof {
        assert(c@.take(0) =~= Seq::<char>::empty());
    }
    while i < c.len()
        invariant
            i <= c.len(),
            r@ == digits_only(c@.take(i as int)),
        decreases c.len() - i,
    {
        proof {
            assert(c@.take(i + 1).drop_last() =~= c@.take(i as int));
            assert(c@.take(i + 1).last() == c@[i as int]);
        }
        if '0' <= c[i] && c[i] <= '9' {
            r.push(c[i]);
        }
        i = i + 1;
    }
    proof {
        assert(c@.take(c.len() as int) =~= c@);
    }
    r
}

impl Profile {
    /// Decodes the student number (such as `89161125`: faculty 89, year 161,
    /// level 1, sequence 25) into its parts.
    pub fn decode_student_number(&self) -> (r: Option<StudentInfo>)
        ensures
            match r {
                Some(i) => decoded_student(attrs_view(self.raw_attributes@))
                    == Some((i.faculty_code@, i.enrolment_year as nat, i.study_level as nat, i.seq_number as nat)),
                None => decoded_student(attrs_view(self.raw_attributes@)) is None,
            },
    {
        let raw: String = match values_of(&self.raw_attributes, "uid") {
            Some(vs) => {
                if vs.len() == 0 {
                    return None;
                }
                vs[0].clone()
            },
            None => match first_value_of(&self.raw_attributes, "eduPersonNickname") {
                Some(v) => v,
                None => {
                    return None;
                },
            },
        };
        let d = digits_of(raw.as_str());
        if d.len() < 8 {
            return None;
        }
        let year = parse_bounded(&slice_of(&d, 2, 5), 0xffff);
        let level = parse_bounded(&slice_of(&d, 5, 6), 0xff);
        let seq = parse_bounded(&slice_of(&d, 6, d.len()), 0xffff);
        proof {
            assert(d@.subrange(6, d@.len() as int) =~= d@.skip(6));
            assert(d@.subrange(0, 2) =~= d@.take(2));
        }
        match (year, level, seq) {
            (Some(y), Some(l), Some(q)) => Some(StudentInfo {
                faculty_code: string_from(slice_of(&d, 0, 2).as_slice()),
                enrolment_year: y as u16,
                study_level: l as u8,
                seq_number: q as u16,
            }),
            _ => None,
        }
    }
}

/* ------------------------------------------------------------------ */
/*  The context handed to the assistant                                 */
/* ------------------------------------------------------------------ */

/// The fields of a profile the assistant is told about.
#[derive(Debug, Clone)]
pub struct ProfileContext {
    pub role: ProfileRole,
    pub username: String,
    pub name: String,
    pub email: String,
    pub country: String,
    /// For a student whose number decodes: the year of enrolment.
    pub enrolment_year: Option<u16>,
    /// For a student whose number decodes: the level of study in words.
    pub study_level: Option<String>,
}

/// The word for a level of study.
pub open spec fn level_word(l: nat) -> Seq<char> {
    if l == 1 {
        "bachelor"@
    } else if l == 2 {
        "master"@
    } else if l == 3 {
        "doctoral"@
    } else {
        "other"@
    }
}

/// The first value of an attribute, or the empty text.
pub open spec fn value_or_empty(v: Option<Seq<char>>) -> Seq<char> {
    match v {
        Some(s) => s,
        None => Seq::empty(),
    }
}

/// The display name: the first `cn` value, else the first `displayName` value.
pub open spec fn display_name(attrs: Seq<(Seq<char>, Seq<Seq<char>>)>) -> Seq<char> {
    match first_value(attrs, "cn"@) {
        Some(n) => n,
        None => value_or_empty(first_value(attrs, "displayName"@)),
    }
}

fn or_empty(v: Option<String>) -> (r: String)
    ensures
        r@ == value_or_empty(match v {
            Some(s) => Some(s@),
            None => None,
        }),
{
    match v {
        Some(s) => s,
        None => String::new(),
    }
}

impl Profile {
    /// The profile as the assistant's context: role, user name, display
    /// name, e-mail and country (empty where the directory has none), and for
    /// a student with a decodable number the enrolment year and level.
    pub fn sanitized_context(&self) -> (c: ProfileContext)
        ensures
            c.role == self.role,
            c.username@ == self.username@,
            c.name@ == display_name(attrs_view(self.raw_attributes@)),
            c.email@ == value_or_empty(first_value(attrs_view(self.raw_attributes@), "mail"@)),
            c.country@ == value_or_empty(first_value(attrs_view(self.raw_attributes@), "schacCountryOfCitizenship"@)),
            match (self.role, decoded_student(attrs_view(self.raw_attributes@))) {
                (ProfileRole::Student, Some(info)) => c.enrolment_year == Some(info.1 as u16)
                    && (c.study_level matches Some(w) && w@ == level_word(info.2)),
                _ => c.enrolment_year is None && c.study_level is None,
            },
    {
        let attrs = &self.raw_attributes;
        let name = match first_value_of(attrs, "cn") {
            Some(n) => n,
            None => or_empty(first_value_of(attrs, "displayName")),
        };
        let mut enrolment_year: Option<u16> = None;
        let mut study_level: Option<String> = None;
        if self.role == ProfileRole::Student {
            match self.decode_student_number() {
                Some(info) => {
                    let word = if info.study_level == 1 {
                        String::from_str("bachelor")
                    } else if info.study_level == 2 {
                        String::from_str("master")
                    } else if info.study_level == 3 {
                        String::from_str("doctoral")
                    } else {
                        String::from_str("other")
                    };
                    enrolment_year = Some(info.enrolment_year);
                    study_level = Some(word);
                },
                None => {},
            }
        }
        ProfileContext {
            role: self.role,
            username: self.username.clone(),
            name,
            email: or_empty(first_value_of(attrs, "mail")),
            country: or_empty(first_value_of(attrs, "schacCountryOfCitizenship")),
            enrolment_year,
            study_level,
        }
    }
}

} // verus!
