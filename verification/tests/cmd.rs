use qwasm2::cmd::{tokenize, CmdSystem};
use std::cell::{Cell, RefCell};
use std::rc::Rc;

#[test]
fn tokenize_simple() {
    let tokens = tokenize("map q2dm1");
    assert_eq!(tokens, vec!["map", "q2dm1"]);
}

#[test]
fn tokenize_quoted() {
    let tokens = tokenize("say \"hello world\"");
    assert_eq!(tokens, vec!["say", "hello world"]);
}

#[test]
fn tokenize_empty() {
    let tokens = tokenize("");
    assert!(tokens.is_empty());
}

#[test]
fn tokenize_extra_whitespace() {
    let tokens = tokenize("  map   q2dm1  ");
    assert_eq!(tokens, vec!["map", "q2dm1"]);
}

#[test]
fn tokenize_unterminated_quote_and_empty_quote() {
    assert_eq!(tokenize("say \"open ended"), vec!["say", "open ended"]);
    assert_eq!(tokenize("a \"\" b"), vec!["a", "", "b"]);
    assert_eq!(tokenize("ab\"cd ef"), vec!["ab\"cd", "ef"]);
    assert_eq!(tokenize("tab\tsep\u{3000}wide"), vec!["tab", "sep", "wide"]);
}

#[test]
fn command_registration_and_execution() {
    let mut cmd = CmdSystem::new();
    let called = Rc::new(Cell::new(false));
    let called2 = called.clone();
    cmd.add_command("test", move |_args| {
        called2.set(true);
    });
    cmd.execute_string("test");
    assert!(called.get());
}

#[test]
fn command_receives_args() {
    let mut cmd = CmdSystem::new();
    let received = Rc::new(RefCell::new(Vec::<String>::new()));
    let received2 = received.clone();
    cmd.add_command("echo", move |args| {
        received2.borrow_mut().extend(args.iter().map(|s| s.to_string()));
    });
    cmd.execute_string("echo hello world");
    assert_eq!(*received.borrow(), vec!["hello", "world"]);
}

#[test]
fn cbuf_add_and_execute() {
    let mut cmd = CmdSystem::new();
    let log = Rc::new(RefCell::new(Vec::<String>::new()));
    let log2 = log.clone();
    cmd.add_command("echo", move |args| {
        if let Some(first) = args.first() {
            log2.borrow_mut().push(first.to_string());
        }
    });
    cmd.cbuf_add_text("echo first\necho second\n");
    cmd.cbuf_execute();
    assert_eq!(*log.borrow(), vec!["first", "second"]);
}

#[test]
fn cbuf_insert_runs_first() {
    let mut cmd = CmdSystem::new();
    let log = Rc::new(RefCell::new(Vec::<String>::new()));
    let log2 = log.clone();
    cmd.add_command("log", move |args| {
        if let Some(first) = args.first() {
            log2.borrow_mut().push(first.to_string());
        }
    });
    cmd.cbuf_add_text("log second\n");
    cmd.cbuf_insert_text("log first\n");
    cmd.cbuf_execute();
    assert_eq!(*log.borrow(), vec!["first", "second"]);
}

#[test]
fn semicolon_separates_commands() {
    let mut cmd = CmdSystem::new();
    let count = Rc::new(Cell::new(0u32));
    let count2 = count.clone();
    cmd.add_command("inc", move |_| {
        count2.set(count2.get() + 1);
    });
    cmd.cbuf_add_text("inc;inc;inc\n");
    cmd.cbuf_execute();
    assert_eq!(count.get(), 3);
}

#[test]
fn quoted_semicolon_stays_in_command() {
    let mut cmd = CmdSystem::new();
    let log = Rc::new(RefCell::new(Vec::<String>::new()));
    let log2 = log.clone();
    cmd.add_command("say", move |args| {
        log2.borrow_mut().extend(args.iter().map(|s| s.to_string()));
    });
    cmd.cbuf_add_text("say \"a;b\"; say c");
    cmd.cbuf_execute();
    assert_eq!(*log.borrow(), vec!["a;b", "c"]);
}

#[test]
fn remove_command() {
    let mut cmd = CmdSystem::new();
    let called = Rc::new(Cell::new(false));
    let called2 = called.clone();
    cmd.add_command("test", move |_| {
        called2.set(true);
    });
    cmd.remove_command("test");
    cmd.execute_string("test");
    assert!(!called.get());
}

#[test]
fn exists_check() {
    let mut cmd = CmdSystem::new();
    cmd.add_command("test", |_| {});
    assert!(cmd.has_command("test"));
    assert!(!cmd.has_command("nonexistent"));
}

#[test]
fn re_adding_replaces_handler() {
    let mut cmd = CmdSystem::new();
    let which = Rc::new(Cell::new(0u32));
    let w1 = which.clone();
    let w2 = which.clone();
    cmd.add_command("x", move |_| w1.set(1));
    cmd.add_command("x", move |_| w2.set(2));
    cmd.execute_string("x");
    assert_eq!(which.get(), 2);
    cmd.remove_command("x");
    assert!(!cmd.has_command("x"));
}

#[test]
fn complete_command() {
    let mut cmd = CmdSystem::new();
    cmd.add_command("map", |_| {});
    cmd.add_command("maxclients", |_| {});
    cmd.add_command("quit", |_| {});
    let result = cmd.complete("ma");
    assert!(result.is_some());
    assert!(result.unwrap().starts_with("ma"));
}

#[test]
fn complete_picks_alphabetically_first() {
    let mut cmd = CmdSystem::new();
    cmd.add_command("maxclients", |_| {});
    cmd.add_command("map", |_| {});
    cmd.add_command("quit", |_| {});
    assert_eq!(cmd.complete("ma"), Some("map".to_string()));
    assert_eq!(cmd.complete("q"), Some("quit".to_string()));
    assert_eq!(cmd.complete("z"), None);
}

#[test]
fn defer_and_restore() {
    let mut cmd = CmdSystem::new();
    let log = Rc::new(RefCell::new(Vec::<String>::new()));
    let log2 = log.clone();
    cmd.add_command("log", move |args| {
        if let Some(first) = args.first() {
            log2.borrow_mut().push(first.to_string());
        }
    });
    cmd.cbuf_add_text("log deferred\n");
    cmd.cbuf_copy_to_defer();
    cmd.cbuf_execute();
    assert!(log.borrow().is_empty());
    cmd.cbuf_insert_from_defer();
    cmd.cbuf_execute();
    assert_eq!(*log.borrow(), vec!["deferred"]);
}

#[test]
fn unknown_command_no_panic() {
    let mut cmd = CmdSystem::new();
    cmd.execute_string("nonexistent_command arg1 arg2");
}
