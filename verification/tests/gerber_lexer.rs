use pcb_extract::parsers::gerber::lexer::{tokenize, GerberToken};

#[test]
fn test_simple_commands() {
    let input = "G01*\nD10*\nX100Y200D01*\nM02*\n";
    let tokens = tokenize(input);
    assert_eq!(
        tokens,
        vec![
            GerberToken::Word("G01".into()),
            GerberToken::Word("D10".into()),
            GerberToken::Word("X100Y200D01".into()),
            GerberToken::Word("M02".into()),
        ]
    );
}

#[test]
fn test_extended_commands() {
    let input = "%FSLAX24Y24*%\n%MOMM*%\n%ADD10C,0.020*%\n";
    let tokens = tokenize(input);
    assert_eq!(
        tokens,
        vec![
            GerberToken::Extended("FSLAX24Y24".into()),
            GerberToken::Extended("MOMM".into()),
            GerberToken::Extended("ADD10C,0.020".into()),
        ]
    );
}

#[test]
fn test_comment_skipped() {
    let input = "G04 This is a comment*\nD10*\n";
    let tokens = tokenize(input);
    assert_eq!(tokens, vec![GerberToken::Word("D10".into())]);
}

#[test]
fn test_extended_comment_skipped() {
    let input = "%G04 Comment in extended block*%\n%MOMM*%\n";
    let tokens = tokenize(input);
    assert_eq!(tokens, vec![GerberToken::Extended("MOMM".into())]);
}

#[test]
fn test_multiple_extended_in_one_block() {
    // Some files put multiple extended commands in one % block
    let input = "%FSLAX24Y24*MOMM*%\n";
    let tokens = tokenize(input);
    assert_eq!(
        tokens,
        vec![
            GerberToken::Extended("FSLAX24Y24".into()),
            GerberToken::Extended("MOMM".into()),
        ]
    );
}

#[test]
fn test_mixed_content() {
    let input =
        "%FSLAX24Y24*%\n%MOMM*%\n%ADD10C,0.100*%\nG01*\nD10*\nX0Y0D02*\nX10000Y0D01*\nM02*\n";
    let tokens = tokenize(input);
    assert_eq!(
        tokens,
        vec![
            GerberToken::Extended("FSLAX24Y24".into()),
            GerberToken::Extended("MOMM".into()),
            GerberToken::Extended("ADD10C,0.100".into()),
            GerberToken::Word("G01".into()),
            GerberToken::Word("D10".into()),
            GerberToken::Word("X0Y0D02".into()),
            GerberToken::Word("X10000Y0D01".into()),
            GerberToken::Word("M02".into()),
        ]
    );
}

#[test]
fn test_empty_input() {
    assert_eq!(tokenize(""), Vec::<GerberToken>::new());
}

#[test]
fn test_whitespace_only() {
    assert_eq!(tokenize("  \n\r\t  "), Vec::<GerberToken>::new());
}

#[test]
fn test_x2_attributes() {
    let input = "%TF.FileFunction,Copper,L1,Top*%\n%TF.FilePolarity,Positive*%\n";
    let tokens = tokenize(input);
    assert_eq!(
        tokens,
        vec![
            GerberToken::Extended("TF.FileFunction,Copper,L1,Top".into()),
            GerberToken::Extended("TF.FilePolarity,Positive".into()),
        ]
    );
}
