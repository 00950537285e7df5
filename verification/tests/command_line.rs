use filecrypt::invocation::{read_arguments, Invocation, ARGUMENT_COUNT};
use filecrypt::operation::Mode;

fn args(words: &[&str]) -> Vec<String> {
    words.iter().map(|w| w.to_string()).collect()
}

#[test]
fn four_arguments_follow_the_name_of_the_program() {
    assert_eq!(ARGUMENT_COUNT, 5);
}

#[test]
fn missing_arguments_ask_for_the_usage() {
    assert_eq!(read_arguments(&args(&[])), Invocation::Usage);
    assert_eq!(read_arguments(&args(&["prog"])), Invocation::Usage);
    assert_eq!(read_arguments(&args(&["prog", "encrypt"])), Invocation::Usage);
    assert_eq!(read_arguments(&args(&["prog", "encrypt", "in"])), Invocation::Usage);
    assert_eq!(read_arguments(&args(&["prog", "encrypt", "in", "out"])), Invocation::Usage);
    assert_eq!(read_arguments(&args(&["prog", "bogus", "in", "out"])), Invocation::Usage);
}

#[test]
fn a_mode_and_a_passphrase_in_order_run() {
    assert_eq!(
        read_arguments(&args(&["prog", "encrypt", "in", "out", "secret"])),
        Invocation::Run(Mode::Encrypt)
    );
    assert_eq!(
        read_arguments(&args(&["prog", "decrypt", "in", "out", "secret"])),
        Invocation::Run(Mode::Decrypt)
    );
    assert_eq!(
        read_arguments(&args(&["prog", "decrypt", "in", "out", ""])),
        Invocation::Run(Mode::Decrypt)
    );
    assert_eq!(
        read_arguments(&args(&["prog", "encrypt", "in", "out", "0123456789abcdef0123456789abcdef"])),
        Invocation::Run(Mode::Encrypt)
    );
}

#[test]
fn further_arguments_are_not_looked_at() {
    assert_eq!(
        read_arguments(&args(&["prog", "encrypt", "in", "out", "secret", "more", "and more"])),
        Invocation::Run(Mode::Encrypt)
    );
}

#[test]
fn an_unknown_mode_is_invalid() {
    for word in ["", "Encrypt", "enc", "decrypt "] {
        assert_eq!(
            read_arguments(&args(&["prog", word, "in", "out", "secret"])),
            Invocation::InvalidMode,
            "{:?}",
            word
        );
    }
}

#[test]
fn the_passphrase_is_judged_before_the_mode() {
    let long = "0123456789abcdef0123456789abcdefX";
    assert_eq!(
        read_arguments(&args(&["prog", "encrypt", "in", "out", long])),
        Invocation::PassphraseTooLong
    );
    assert_eq!(
        read_arguments(&args(&["prog", "bogus", "in", "out", long])),
        Invocation::PassphraseTooLong
    );
}
