use rustfmt_core::rustfmt_diff::DiffLine::{Context, Expected, Resulting};
use rustfmt_core::rustfmt_diff::{make_diff, Mismatch};

#[test]
fn diff_simple() {
    let src = "one\ntwo\nthree\nfour\nfive\n";
    let dest = "one\ntwo\ntrois\nfour\nfive\n";
    let diff = make_diff(src, dest, 1).unwrap();
    assert_eq!(
        diff,
        vec![
            Mismatch {
                line_number: 2,
                lines: vec![
                    Context("two".into()),
                    Resulting("three".into()),
                    Expected("trois".into()),
                    Context("four".into()),
                ],
            },
        ]
    );
}

#[test]
fn diff_simple2() {
    let src = "one\ntwo\nthree\nfour\nfive\nsix\nseven\n";
    let dest = "one\ntwo\ntrois\nfour\ncinq\nsix\nseven\n";
    let diff = make_diff(src, dest, 1).unwrap();
    assert_eq!(
        diff,
        vec![
            Mismatch {
                line_number: 2,
                lines: vec![
                    Context("two".into()),
                    Resulting("three".into()),
                    Expected("trois".into()),
                    Context("four".into()),
                ],
            },
            Mismatch {
                line_number: 5,
                lines: vec![
                    Resulting("five".into()),
                    Expected("cinq".into()),
                    Context("six".into()),
                ],
            },
        ]
    );
}

#[test]
fn diff_zerocontext() {
    let src = "one\ntwo\nthree\nfour\nfive\n";
    let dest = "one\ntwo\ntrois\nfour\nfive\n";
    let diff = make_diff(src, dest, 0).unwrap();
    assert_eq!(
        diff,
        vec![
            Mismatch {
                line_number: 3,
                lines: vec![Resulting("three".into()), Expected("trois".into())],
            },
        ]
    );
}

#[test]
fn equal_texts_have_no_mismatch() {
    let text = "fn main() {\n    let x = 1;\n}\n";
    assert!(make_diff(text, text, 3).unwrap().is_empty());
    assert!(make_diff("", "", 0).unwrap().is_empty());
}
