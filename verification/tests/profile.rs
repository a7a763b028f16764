use urska::profile::{extract_uid, Profile, ProfileRole};

fn attrs(pairs: &[(&str, &[&str])]) -> Vec<(String, Vec<String>)> {
    pairs.iter().map(|(k, vs)| (k.to_string(), vs.iter().map(|v| v.to_string()).collect())).collect()
}

#[test]
fn uid_is_read_from_distinguished_name() {
    assert_eq!(extract_uid("uid=jdoe,ou=people,dc=upr,dc=si"), Ok("jdoe".to_string()));
    assert_eq!(extract_uid("cn=a=b,ou=x"), Ok("a".to_string()));
    assert_eq!(extract_uid("uid="), Ok("".to_string()));
    assert_eq!(extract_uid("no value here"), Err("Could not extract uid value from ldap string".to_string()));
    assert_eq!(extract_uid(""), Err("Could not extract uid value from ldap string".to_string()));
}

#[test]
fn student_and_employee_profiles() {
    let a = attrs(&[("uid", &["89161125"])]);
    let s = Profile::try_from_student_string("uid=89161125,ou=students".to_string(), a.clone()).unwrap();
    assert_eq!(s.role, ProfileRole::Student);
    assert_eq!(s.username, "89161125");
    assert_eq!(s.raw_attributes, a);
    let e = Profile::try_from_employee_string("uid=jdoe,ou=staff".to_string(), vec![]).unwrap();
    assert_eq!(e.role, ProfileRole::Employee);
    assert!(Profile::try_from_employee_string("garbage".to_string(), vec![]).is_err());
}

#[test]
fn student_number_is_decoded() {
    let p = Profile {
        role: ProfileRole::Student,
        username: "x".to_string(),
        raw_attributes: attrs(&[("eduPersonNickname", &["89-1611-2-5"]), ("uid", &["89161125"])]),
    };
    let info = p.decode_student_number().unwrap();
    assert_eq!(info.faculty_code, "89");
    assert_eq!(info.enrolment_year, 161);
    assert_eq!(info.study_level, 1);
    assert_eq!(info.seq_number, 25);
}

#[test]
fn student_number_edge_cases() {
    let short = Profile { role: ProfileRole::Student, username: "x".into(), raw_attributes: attrs(&[("uid", &["1234567"])]) };
    assert!(short.decode_student_number().is_none());
    let empty_uid = Profile {
        role: ProfileRole::Student,
        username: "x".into(),
        raw_attributes: attrs(&[("uid", &[]), ("eduPersonNickname", &["89161125"])]),
    };
    assert!(empty_uid.decode_student_number().is_none());
    let nickname = Profile { role: ProfileRole::Student, username: "x".into(), raw_attributes: attrs(&[("eduPersonNickname", &["a89b2020c3d999"])]) };
    let i = nickname.decode_student_number().unwrap();
    assert_eq!((i.faculty_code.as_str(), i.enrolment_year, i.study_level, i.seq_number), ("89", 202, 0, 3999));
    let long_seq = Profile { role: ProfileRole::Student, username: "x".into(), raw_attributes: attrs(&[("uid", &["8920201999999"])]) };
    assert!(long_seq.decode_student_number().is_none());
}

#[test]
fn sanitized_context_of_student() {
    let p = Profile {
        role: ProfileRole::Student,
        username: "89161125".to_string(),
        raw_attributes: attrs(&[("uid", &["89161125"]), ("displayName", &["Jane Doe"]), ("mail", &["j@x.si"])]),
    };
    let c = p.sanitized_context();
    assert_eq!(c.role, ProfileRole::Student);
    assert_eq!(c.username, "89161125");
    assert_eq!(c.name, "Jane Doe");
    assert_eq!(c.email, "j@x.si");
    assert_eq!(c.country, "");
    assert_eq!(c.enrolment_year, Some(161));
    assert_eq!(c.study_level, Some("bachelor".to_string()));
}

#[test]
fn sanitized_context_of_employee() {
    let p = Profile {
        role: ProfileRole::Employee,
        username: "jdoe".to_string(),
        raw_attributes: attrs(&[("cn", &["J. Doe"]), ("displayName", &["Jane"]), ("schacCountryOfCitizenship", &["SI"]), ("uid", &["89161125"])]),
    };
    let c = p.sanitized_context();
    assert_eq!(c.name, "J. Doe");
    assert_eq!(c.country, "SI");
    assert_eq!(c.enrolment_year, None);
    assert_eq!(c.study_level, None);
}
