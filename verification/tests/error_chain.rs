use bouncer::error::error_chain;

#[derive(Debug)]
struct Inner;
impl std::fmt::Display for Inner {
    fn fmt(&self, f: &mut std::fmt::Formatter<'_>) -> std::fmt::Result {
        f.write_str("inner cause")
    }
}
impl std::error::Error for Inner {}

#[derive(Debug)]
struct Outer(Inner);
impl std::fmt::Display for Outer {
    fn fmt(&self, f: &mut std::fmt::Formatter<'_>) -> std::fmt::Result {
        f.write_str("outer message")
    }
}
impl std::error::Error for Outer {
    fn source(&self) -> Option<&(dyn std::error::Error + 'static)> {
        Some(&self.0)
    }
}

/// The message of `e` and of every cause below it, outermost first.
fn messages(e: &(dyn std::error::Error + 'static)) -> Vec<String> {
    let mut out = vec![e.to_string()];
    let mut cur = e.source();
    while let Some(src) = cur {
        out.push(src.to_string());
        cur = src.source();
    }
    out
}

#[test]
fn error_chain_walks_sources() {
    assert_eq!(
        error_chain(&messages(&Outer(Inner))),
        "outer message — caused by: inner cause"
    );
}

#[test]
fn error_chain_handles_no_source() {
    assert_eq!(error_chain(&messages(&Inner)), "inner cause");
}

#[test]
fn error_chain_of_three_levels() {
    let chain = vec!["a".to_string(), "b".to_string(), "c".to_string()];
    assert_eq!(error_chain(&chain), "a — caused by: b — caused by: c");
}

#[test]
fn error_chain_of_nothing_is_empty() {
    assert_eq!(error_chain(&[]), "");
}
