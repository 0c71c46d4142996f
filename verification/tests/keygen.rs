use libspa::keygen::{generate_rust, parse, trim_comment, Key};

#[test]
fn test_generate() {
    let keys = vec![
        Key::new("PROTOCOL", "protocol used for connection"),
        Key::new("SEC_PID", "Client pid, set by protocol"),
    ];
    let expected = r#"key_constant!(PROTOCOL, PW_KEY_PROTOCOL,
    /// protocol used for connection
);
key_constant!(SEC_PID, PW_KEY_SEC_PID,
    /// Client pid, set by protocol
);
"#;

    assert_eq!(generate_rust(&keys), expected);
}

#[test]
fn key_symbols() {
    let key = Key::new("REMOTE_NAME", "the name of the remote");
    assert_eq!(key, Key::new("REMOTE_NAME", "the name of the remote"));
    let table = generate_rust(&[key]);
    assert!(table.contains("key_constant!(REMOTE_NAME, PW_KEY_REMOTE_NAME,"));
}

#[test]
fn trim_comment_strips_terminator() {
    assert_eq!(trim_comment(" protocol used for connection */"), "protocol used for connection");
    assert_eq!(trim_comment("Client pid, set by protocol"), "Client pid, set by protocol");
    assert_eq!(trim_comment("  controlled */  "), "controlled");
    assert_eq!(trim_comment("\t default pipewire-0, overwritten by"), "default pipewire-0, overwritten by");
    assert_eq!(trim_comment("*/"), "");
    assert_eq!(trim_comment(""), "");
}

#[test]
fn test_parse_one_line() {
    let input = r#"
#define PW_KEY_PROTOCOL			"pipewire.protocol"	/**< protocol used for connection */
/** Section */
#define PW_KEY_SEC_PID			"pipewire.sec.pid"	/**< Client pid, set by protocol */
#define PW_KEY_WINDOW_X11_DISPLAY	"window.x11.display"	/**< the X11 display string. Ex. ":0.0" */
        "#;

    let keys = parse(input);

    assert_eq!(
        keys,
        vec![
            Key::new("PROTOCOL", "protocol used for connection"),
            Key::new("SEC_PID", "Client pid, set by protocol"),
            Key::new("WINDOW_X11_DISPLAY", "the X11 display string. Ex. \":0.0\""),
        ]
    );
}

#[test]
fn test_parse_multi_lines() {
    let input = r#"
#define PW_KEY_CLIENT_ACCESS		"pipewire.client.access"/**< how the client wants to be access
								  *  controlled */
/* Section */
#define PW_KEY_REMOTE_NAME		"remote.name"		/**< The name of the remote to connect to,
								  *  default pipewire-0, overwritten by
								  *  env(PIPEWIRE_REMOTE) */
        "#;

    let keys = parse(input);

    assert_eq!(
        keys,
        vec![
            Key::new("CLIENT_ACCESS", "how the client wants to be access controlled"),
            Key::new("REMOTE_NAME", "The name of the remote to connect to, default pipewire-0, overwritten by env(PIPEWIRE_REMOTE)")
        ]
    );
}

#[test]
fn test_parse_deprecated() {
    let input = r#"
#define PW_KEY_PROTOCOL			"pipewire.protocol"	/**< protocol used for connection */

#ifdef PW_ENABLE_DEPRECATED
#define PW_KEY_PRIORITY_MASTER		"priority.master"	/**< deprecated */
#endif /* PW_ENABLE_DEPRECATED */

#define PW_KEY_SEC_PID			"pipewire.sec.pid"	/**< Client pid, set by protocol */
        "#;

    let keys = parse(input);

    assert_eq!(
        keys,
        vec![
            Key::new("PROTOCOL", "protocol used for connection"),
            Key::new("SEC_PID", "Client pid, set by protocol"),
        ]
    );
}
