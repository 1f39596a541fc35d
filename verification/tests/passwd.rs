use archman::passwd::{find_home_in_passwd_file, split_bytes, PasswdError};

#[test]
fn parse_passwd_file() {
    let contents = [
        "root:x:0:0::/root:/bin/bash\n",
        "user1:x:1000:1000::/home/user1:/bin/bash\n",
        "user2:x:1001:1001:John Smith:/home/user2\n",
        "user3:x:1002:1002::/home/user3:/bin/bash\n",
        "user4:x:1003:1003::/home/user4\n",
        "user5:x:1004:1004::/home/user5:/bin/bash\n",
    ]
    .concat();
    let contents = contents.as_bytes();

    for (name, home) in [
        ("root", "/root"),
        ("user1", "/home/user1"),
        ("user2", "/home/user2"),
        ("user3", "/home/user3"),
        ("user4", "/home/user4"),
        ("user5", "/home/user5"),
    ] {
        assert_eq!(
            home.as_bytes(),
            find_home_in_passwd_file(name.as_bytes(), contents).unwrap().as_slice()
        );
    }

    find_home_in_passwd_file("user0".as_bytes(), contents).unwrap_err();
}

#[test]
fn passwd_user_not_found() {
    assert_eq!(
        find_home_in_passwd_file(b"nobody", b"root:x:0:0::/root:/bin/bash\n"),
        Err(PasswdError::UserNotFound)
    );
    assert_eq!(find_home_in_passwd_file(b"root", b""), Err(PasswdError::UserNotFound));
}

#[test]
fn passwd_line_without_home() {
    assert_eq!(
        find_home_in_passwd_file(b"root", b"root:x:0:0:\nroot:x:0:0::/root:/bin/bash\n"),
        Err(PasswdError::NoHomeDirectory)
    );
}

#[test]
fn passwd_first_matching_line_decides() {
    assert_eq!(
        find_home_in_passwd_file(b"u", b"v:x:1:1::/home/v\nu:x:2:2::/home/a\nu:x:3:3::/home/b"),
        Ok(b"/home/a".to_vec())
    );
}

#[test]
fn passwd_empty_name_matches_empty_line() {
    assert_eq!(
        find_home_in_passwd_file(b"", b"root:x:0:0::/root\n"),
        Err(PasswdError::NoHomeDirectory)
    );
}

#[test]
fn split_bytes_agrees_with_std() {
    for text in ["", ":", "a", "a:b", "a::b", ":a:", "::", "abc:def:", "no separator"] {
        let expected: Vec<Vec<u8>> =
            text.as_bytes().split(|b| *b == b':').map(|p| p.to_vec()).collect();
        assert_eq!(split_bytes(text.as_bytes(), b':'), expected, "for {:?}", text);
    }
}
