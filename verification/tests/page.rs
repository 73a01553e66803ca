use hackernews::page::{bootstrap_script, escape_state};

#[test]
fn a_state_without_backticks_is_left_as_it_is() {
    assert_eq!(escape_state(""), "");
    assert_eq!(escape_state("{\"is_loading\":false}"), "{\"is_loading\":false}");
    assert_eq!(escape_state("${x} \\ ' \""), "${x} \\ ' \"");
}

#[test]
fn every_backtick_becomes_a_substitution() {
    assert_eq!(escape_state("`"), "${\"`\"}");
    assert_eq!(escape_state("a`b"), "a${\"`\"}b");
    assert_eq!(escape_state("``"), "${\"`\"}${\"`\"}");
    assert_eq!(escape_state("`code` and \u{e9}"), "${\"`\"}code${\"`\"} and \u{e9}");
}

#[test]
fn escape_state_agrees_with_replace() {
    for s in ["", "`", "x`y`z", "no ticks", "```", "{\"text\":\"use `ls`\"}"] {
        assert_eq!(escape_state(s), s.replace('`', "${\"`\"}"));
    }
}

#[test]
fn bootstrap_script_embeds_the_escaped_state() {
    let expected = "
                          import init, { main } from '/pkg/client.js';
                          async function start() {
                            await init();
                            let app_state = String.raw`{\"content\":\"Idle\",\"note\":\"${\"`\"}\"}`;
                            await main(app_state);
                          }
                          start();
                    ";
    assert_eq!(bootstrap_script("{\"content\":\"Idle\",\"note\":\"`\"}"), expected);
}

#[test]
fn bootstrap_script_of_an_empty_state() {
    let script = bootstrap_script("");
    assert!(script.contains("let app_state = String.raw``;"));
    assert!(script.starts_with("\n"));
    assert!(script.trim_end().ends_with("start();"));
}

#[test]
fn an_escaped_state_holds_no_backtick_outside_an_escape() {
    for s in ["`", "a`", "`a", "``", "${\"`\"}", "${\"", "\"}`${", "x`y`z`", "{\"t\":\"`${\\\"`\\\"}`\"}"] {
        let escaped: Vec<char> = escape_state(s).chars().collect();
        for (i, c) in escaped.iter().enumerate() {
            if *c == '`' {
                assert!(i >= 3 && i + 2 < escaped.len(), "on {:?}", s);
                let around: String = escaped[i - 3..i + 3].iter().collect();
                assert_eq!(around, "${\"`\"}", "on {:?}", s);
            }
        }
    }
}
