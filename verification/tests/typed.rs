//! What a line typed during a call means.

use murmure::typed::{classify, expand_home, Ended, Route, Typed};

fn send(path: &str, route: Route) -> Typed {
    Typed::Send(path.to_owned(), route)
}

#[test]
fn commands_typed_during_a_call_are_never_sent() {
    assert_eq!(classify("/bye", None), Typed::HangUp(Ended::WeHungUp));
    assert_eq!(classify("/quit", None), Typed::HangUp(Ended::Quit));
    assert_eq!(
        classify("/add alice haticv.onion", None),
        Typed::UnknownCommand("/add".into())
    );
    assert_eq!(classify("/call bob", None), Typed::UnknownCommand("/call".into()));
    assert_eq!(classify("  ", None), Typed::Nothing);
    assert_eq!(classify("/send", None), Typed::UnknownCommand("/send".into()));
}

#[test]
fn the_file_verbs_are_recognised() {
    assert_eq!(classify("/accept", None), Typed::Accept(None));
    assert_eq!(classify("/refuse", None), Typed::Refuse(None));
    assert_eq!(
        classify("/send /tmp/rapport.pdf", None),
        send("/tmp/rapport.pdf", Route::Tor)
    );
    assert_eq!(
        classify("/send /tmp/mes documents/le rapport.pdf", None),
        send("/tmp/mes documents/le rapport.pdf", Route::Tor)
    );
}

#[test]
fn only_an_explicit_flag_leaves_tor() {
    assert_eq!(
        classify("/send --direct /tmp/gros.pdf", None),
        send("/tmp/gros.pdf", Route::Direct)
    );
    assert_eq!(classify("/send /tmp/--direct", None), send("/tmp/--direct", Route::Tor));
    assert_eq!(
        classify("/send --directory/rapport.pdf", None),
        send("--directory/rapport.pdf", Route::Tor)
    );
    assert_eq!(classify("/send --direct", None), send("--direct", Route::Tor));
}

#[test]
fn a_double_slash_sends_a_literal_slash() {
    assert_eq!(classify("//bye", None), Typed::Message("/bye".into()));
    assert_eq!(
        classify("//usr/bin is where it lives", None),
        Typed::Message("/usr/bin is where it lives".into())
    );
}

#[test]
fn ordinary_lines_are_untouched() {
    assert_eq!(classify("bonjour", None), Typed::Message("bonjour".into()));
    assert_eq!(
        classify("et voilà 3/4 du chemin", None),
        Typed::Message("et voilà 3/4 du chemin".into())
    );
}

#[test]
fn white_space_around_a_plain_line_is_kept() {
    assert_eq!(classify("  bonjour ", None), Typed::Message("  bonjour ".into()));
    assert_eq!(classify("  //x ", None), Typed::Message("/x".into()));
    assert_eq!(classify("\u{3000}/bye\t", None), Typed::HangUp(Ended::WeHungUp));
}

#[test]
fn files_are_answered_by_number_or_all_at_once() {
    assert_eq!(classify("/accept 2", None), Typed::Accept(Some(2)));
    assert_eq!(classify("/accept +3", None), Typed::Accept(Some(3)));
    assert_eq!(classify("/accept two", None), Typed::Accept(None));
    assert_eq!(classify("/accept -1", None), Typed::Accept(None));
    assert_eq!(classify("/accept 18446744073709551616", None), Typed::Accept(None));
    assert_eq!(
        classify("/accept 18446744073709551615", None),
        Typed::Accept(Some(usize::MAX))
    );
    assert_eq!(classify("/accept all", None), Typed::AcceptAll);
    assert_eq!(classify("/refuse 10", None), Typed::Refuse(Some(10)));
}

#[test]
fn a_leading_tilde_is_the_home_directory() {
    let home = Some("/home/alice");
    assert_eq!(expand_home("~/a b.pdf", home), "/home/alice/a b.pdf");
    assert_eq!(expand_home("~/a", Some("/home/alice/")), "/home/alice/a");
    assert_eq!(expand_home("~/a", None), "~/a");
    assert_eq!(expand_home("~bob/a", home), "~bob/a");
    assert_eq!(expand_home("/x/~/a", home), "/x/~/a");
    assert_eq!(
        classify("/send --direct ~/gros.pdf", home),
        send("/home/alice/gros.pdf", Route::Direct)
    );
}

#[test]
fn an_ending_is_told_by_the_name_we_know() {
    assert_eq!(Ended::PeerHungUp.describe("alice"), "alice hung up");
    assert_eq!(Ended::WeHungUp.describe("alice"), "you hung up");
    assert_eq!(Ended::Quit.describe("alice"), "you hung up");
    assert_eq!(Ended::InputClosed.describe("alice"), "input closed");
    assert!(Ended::Quit.leaves() && Ended::InputClosed.leaves());
    assert!(!Ended::WeHungUp.leaves() && !Ended::PeerHungUp.leaves());
}
