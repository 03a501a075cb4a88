use matrix::chars::chars_of;
use matrix::chars::is_whitespace;
use matrix::chars::split_at;
use matrix::chars::trimmed;
use matrix::decimal::decimal_of;
use matrix::decimal::element_text;
use matrix::decimal::parse_element;
use matrix::decimal::parse_number;
use matrix::format::string_of;
use matrix::tokenize;
use matrix::Matrix;
use matrix::ParseMatrixError;

fn chars(s: &str) -> Vec<char> {
    s.chars().collect()
}

#[test]
fn text_of_a_matrix_with_negative_cells() {
    assert_eq!(Matrix::new(2, 3, &[-2, -1, 0, 1, 2, 3]).to_string(), "[-2,-1,0;1,2,3]");
}

#[test]
fn text_of_small_matrices() {
    assert_eq!(Matrix::new(1, 1, &[5]).to_string(), "[5]");
    assert_eq!(Matrix::new(1, 3, &[5, 6, 7]).to_string(), "[5,6,7]");
    assert_eq!(Matrix::new(3, 1, &[5, 6, 7]).to_string(), "[5;6;7]");
}

#[test]
fn text_of_a_matrix_without_cells() {
    let none: [i32; 0] = [];
    assert_eq!(Matrix::new(0, 0, &none).to_string(), "[]");
    assert_eq!(Matrix::new(3, 0, &none).to_string(), "[]");
    assert_eq!(Matrix::new(0, 3, &none).to_string(), "[]");
}

#[test]
fn text_of_the_extreme_values() {
    assert_eq!(Matrix::new(1, 2, &[i8::MIN, i8::MAX]).to_string(), "[-128,127]");
    assert_eq!(Matrix::new(1, 2, &[i64::MIN, i64::MAX]).to_string(), "[-9223372036854775808,9223372036854775807]");
    assert_eq!(Matrix::new(1, 2, &[u64::MIN, u64::MAX]).to_string(), "[0,18446744073709551615]");
    assert_eq!(Matrix::new(2, 1, &[usize::MAX, 10]).to_string(), format!("[{};10]", usize::MAX));
    assert_eq!(Matrix::new(2, 1, &[isize::MIN, -10]).to_string(), format!("[{};-10]", isize::MIN));
}

#[test]
fn parse_reads_a_square_matrix() {
    assert_eq!(
        Matrix::<i32>::parse("[1,2,3;4,5,6;7,8,9]"),
        Ok(Matrix::new(3, 3, &[1, 2, 3, 4, 5, 6, 7, 8, 9]))
    );
    assert_eq!(
        "[1,2,3;4,5,6;7,8,9]".parse::<Matrix<i32>>(),
        Ok(Matrix::new(3, 3, &[1, 2, 3, 4, 5, 6, 7, 8, 9]))
    );
}

#[test]
fn parse_takes_the_shape_from_the_separators() {
    assert_eq!(Matrix::<u8>::parse("[7]"), Ok(Matrix::new(1, 1, &[7u8])));
    assert_eq!(Matrix::<u8>::parse("[7,8]"), Ok(Matrix::new(1, 2, &[7u8, 8])));
    assert_eq!(Matrix::<u8>::parse("[7;8]"), Ok(Matrix::new(2, 1, &[7u8, 8])));
    assert_eq!(Matrix::<u8>::parse("[1,2;3,4;5,6]").unwrap().shape(), (3, 2));
}

#[test]
fn parse_ignores_white_space_around_the_text_and_the_cells() {
    let expected = Ok(Matrix::new(2, 2, &[1, -2, 3, 4]));
    assert_eq!(Matrix::<i32>::parse("  [1,-2;3,4]\n"), expected);
    assert_eq!(Matrix::<i32>::parse("[ 1 ,\t-2 ;\n3 , 4 ]"), expected);
    assert_eq!(Matrix::<i32>::parse("\u{3000}[\u{a0}1\u{2003},-2;3\u{85},4]\u{2029}"), expected);
}

#[test]
fn parse_refuses_white_space_inside_a_number() {
    assert_eq!(Matrix::<i32>::parse("[1 2]"), Err(ParseMatrixError::ParseNumberError));
    assert_eq!(Matrix::<i32>::parse("[- 2]"), Err(ParseMatrixError::ParseNumberError));
}

#[test]
fn parse_refuses_missing_brackets() {
    for text in ["1,2,3;4,5,6;7,8,9]", "[1,2,3", "1,2,3", "", " ", "[", "]", "][", "(1,2)", "x[1]", "[1]x"] {
        assert_eq!(Matrix::<i32>::parse(text), Err(ParseMatrixError::WrongBracketFormat), "{:?}", text);
    }
}

#[test]
fn parse_refuses_brackets_of_several_bytes() {
    assert_eq!(Matrix::<i32>::parse("\u{ff3b}1\u{ff3d}"), Err(ParseMatrixError::WrongBracketFormat));
    assert_eq!(Matrix::<i32>::parse("\u{e9}"), Err(ParseMatrixError::WrongBracketFormat));
    assert_eq!(Matrix::<i32>::parse("\u{e9}1]"), Err(ParseMatrixError::WrongBracketFormat));
    assert_eq!(Matrix::<i32>::parse("[1\u{e9}"), Err(ParseMatrixError::WrongBracketFormat));
}

#[test]
fn parse_refuses_cells_that_are_no_numbers() {
    for text in ["[1,2,x;4,5,6;7,8,9]", "[]", "[ ]", "[1,2,]", "[,1]", "[1;]", "[;]", "[1.5]", "[1e3]", "[0x10]", "[--1]", "[+-1]", "[-]", "[+]", "[1_000]", "[[1]]", "[\u{661}]"] {
        assert_eq!(Matrix::<i32>::parse(text), Err(ParseMatrixError::ParseNumberError), "{:?}", text);
    }
}

#[test]
fn parse_refuses_rows_of_unequal_length() {
    for text in ["[1,2;4,5,6;7,8,9]", "[1,2,3;4,5]", "[1;2,3]", "[1,2;3]", "[1;,]"] {
        assert_eq!(Matrix::<i32>::parse(text), Err(ParseMatrixError::ColumnsNotAligned), "{:?}", text);
    }
}

#[test]
fn parse_reports_the_first_failure_from_the_left() {
    assert_eq!(Matrix::<i32>::parse("[1,x;2]"), Err(ParseMatrixError::ParseNumberError));
    assert_eq!(Matrix::<i32>::parse("[1,2;3;x,y]"), Err(ParseMatrixError::ColumnsNotAligned));
    assert_eq!(Matrix::<i32>::parse("[1,2;3,x;4]"), Err(ParseMatrixError::ParseNumberError));
    assert_eq!(Matrix::<i32>::parse("[1,2;x;4,5]"), Err(ParseMatrixError::ColumnsNotAligned));
    assert_eq!(Matrix::<i32>::parse("1,x;2"), Err(ParseMatrixError::WrongBracketFormat));
}

#[test]
fn parse_accepts_signs_and_leading_zeros() {
    assert_eq!(Matrix::<i32>::parse("[+5,-5,007,-0,+0]"), Ok(Matrix::new(1, 5, &[5, -5, 7, 0, 0])));
    assert_eq!(Matrix::<u32>::parse("[+5,007,+0]"), Ok(Matrix::new(1, 3, &[5u32, 7, 0])));
    assert_eq!(Matrix::<u32>::parse("[-0]"), Err(ParseMatrixError::ParseNumberError));
    assert_eq!(Matrix::<u32>::parse("[-5]"), Err(ParseMatrixError::ParseNumberError));
}

#[test]
fn parse_holds_numbers_to_the_element_kind() {
    assert_eq!(Matrix::<i8>::parse("[-128,127]"), Ok(Matrix::new(1, 2, &[i8::MIN, i8::MAX])));
    assert_eq!(Matrix::<i8>::parse("[128]"), Err(ParseMatrixError::ParseNumberError));
    assert_eq!(Matrix::<i8>::parse("[-129]"), Err(ParseMatrixError::ParseNumberError));
    assert_eq!(Matrix::<u8>::parse("[0,255]"), Ok(Matrix::new(1, 2, &[u8::MIN, u8::MAX])));
    assert_eq!(Matrix::<u8>::parse("[256]"), Err(ParseMatrixError::ParseNumberError));
    assert_eq!(Matrix::<i16>::parse("[-32768,32767]"), Ok(Matrix::new(1, 2, &[i16::MIN, i16::MAX])));
    assert_eq!(Matrix::<u16>::parse("[65536]"), Err(ParseMatrixError::ParseNumberError));
    assert_eq!(Matrix::<u32>::parse("[4294967295]"), Ok(Matrix::new(1, 1, &[u32::MAX])));
    assert_eq!(Matrix::<u32>::parse("[4294967296]"), Err(ParseMatrixError::ParseNumberError));
    assert_eq!(
        Matrix::<i64>::parse("[-9223372036854775808,9223372036854775807]"),
        Ok(Matrix::new(1, 2, &[i64::MIN, i64::MAX]))
    );
    assert_eq!(Matrix::<i64>::parse("[9223372036854775808]"), Err(ParseMatrixError::ParseNumberError));
    assert_eq!(Matrix::<i64>::parse("[-9223372036854775809]"), Err(ParseMatrixError::ParseNumberError));
    assert_eq!(Matrix::<u64>::parse("[18446744073709551615]"), Ok(Matrix::new(1, 1, &[u64::MAX])));
    assert_eq!(Matrix::<u64>::parse("[18446744073709551616]"), Err(ParseMatrixError::ParseNumberError));
    assert_eq!(
        Matrix::<u64>::parse("[00000000000000000000000000000000000000000000000018446744073709551615]"),
        Ok(Matrix::new(1, 1, &[u64::MAX]))
    );
    assert_eq!(
        Matrix::<u64>::parse("[99999999999999999999999999999999999999999999999999999999999999]"),
        Err(ParseMatrixError::ParseNumberError)
    );
    assert_eq!(Matrix::<usize>::parse(&format!("[{}]", usize::MAX)), Ok(Matrix::new(1, 1, &[usize::MAX])));
    assert_eq!(Matrix::<isize>::parse(&format!("[{}]", isize::MIN)), Ok(Matrix::new(1, 1, &[isize::MIN])));
}

#[test]
fn reading_the_text_of_a_matrix_gives_it_back() {
    let a = Matrix::new(2, 3, &[-2, -1, 0, 1, 2, 3]);
    assert_eq!(Matrix::<i32>::parse(&a.to_string()), Ok(a));
    let b = Matrix::new(1, 1, &[i64::MIN]);
    assert_eq!(Matrix::<i64>::parse(&b.to_string()), Ok(b));
    let c = Matrix::new(3, 2, &[0u64, u64::MAX, 1, 10, 100, 1000]);
    assert_eq!(Matrix::<u64>::parse(&c.to_string()), Ok(c));
    let d = Matrix::new(4, 1, &[i8::MIN, -1, 0, i8::MAX]);
    assert_eq!(Matrix::<i8>::parse(&d.to_string()), Ok(d));
}

#[test]
fn reading_the_text_of_a_matrix_without_cells_fails() {
    let none: [i32; 0] = [];
    let empty = Matrix::new(0, 0, &none);
    assert_eq!(Matrix::<i32>::parse(&empty.to_string()), Err(ParseMatrixError::ParseNumberError));
}

#[test]
fn tokenize_cuts_rows_and_cells() {
    let cells = tokenize(" [ 1.5 , x ;; a b ,] ").unwrap();
    let expected: Vec<Vec<String>> = vec![
        vec!["1.5".to_string(), "x".to_string()],
        vec!["".to_string()],
        vec!["a b".to_string(), "".to_string()],
    ];
    assert_eq!(cells, expected);
    assert_eq!(tokenize("[]").unwrap(), vec![vec!["".to_string()]]);
    assert_eq!(tokenize("1,2"), Err(ParseMatrixError::WrongBracketFormat));
}

#[test]
fn from_rows_builds_row_by_row() {
    let rows = vec![vec![Some(1.5), Some(2.0)], vec![Some(-1.0), Some(0.25)]];
    assert_eq!(Matrix::from_rows(&rows), Ok(Matrix::new(2, 2, &[1.5, 2.0, -1.0, 0.25])));
    let none: Vec<Vec<Option<u8>>> = Vec::new();
    let empty: [u8; 0] = [];
    assert_eq!(Matrix::from_rows(&none), Ok(Matrix::new(0, 0, &empty)));
    let hollow: Vec<Vec<Option<u8>>> = vec![Vec::new(), Vec::new()];
    assert_eq!(Matrix::from_rows(&hollow), Ok(Matrix::new(2, 0, &empty)));
}

#[test]
fn from_rows_reports_the_first_failure() {
    let gap = vec![vec![Some(1), None], vec![Some(3)]];
    assert_eq!(Matrix::from_rows(&gap), Err(ParseMatrixError::ParseNumberError));
    let ragged = vec![vec![Some(1), Some(2)], vec![Some(3)], vec![None, None]];
    assert_eq!(Matrix::from_rows(&ragged), Err(ParseMatrixError::ColumnsNotAligned));
    let late = vec![vec![Some(1), Some(2)], vec![Some(3), None]];
    assert_eq!(Matrix::from_rows(&late), Err(ParseMatrixError::ParseNumberError));
}

#[test]
fn format_cells_lays_out_any_texts() {
    let m = Matrix::new(2, 2, &[0.5, 1.0, -2.25, 3.0]);
    let cells: Vec<String> = m.as_slice().iter().map(|cell| format!("{}", cell)).collect();
    assert_eq!(m.format_cells(&cells), "[0.5,1;-2.25,3]");
    let words = vec!["a".to_string(), "".to_string(), "bc".to_string()];
    assert_eq!(Matrix::new(3, 1, &[0, 0, 0]).format_cells(&words), "[a;;bc]");
    assert_eq!(Matrix::new(1, 3, &[0, 0, 0]).format_cells(&words), "[a,,bc]");
}

#[test]
fn white_space_is_what_the_standard_library_calls_so() {
    for code in 0..=0x10ffffu32 {
        if let Some(c) = char::from_u32(code) {
            assert_eq!(is_whitespace(c), c.is_whitespace(), "{:?}", c);
        }
    }
}

#[test]
fn trimmed_agrees_with_the_standard_library() {
    for text in ["", " ", "a", " a", "a ", "  a b  ", "\t\n x \r\n", "\u{2003}y\u{3000}", "\u{200b}z ", " \u{feff}"] {
        assert_eq!(string_of(&trimmed(&chars(text))), text.trim(), "{:?}", text);
        assert_eq!(chars_of(text), chars(text));
    }
}

#[test]
fn split_at_agrees_with_the_standard_library() {
    for text in ["", ",", "a", "a,b", ",a", "a,", ",,", "a,,b,", "\u{e9},\u{4e2d}\u{6587}"] {
        let pieces: Vec<String> = split_at(&chars(text), ',').iter().map(string_of).collect();
        let expected: Vec<String> = text.split(',').map(|piece| piece.to_string()).collect();
        assert_eq!(pieces, expected, "{:?}", text);
    }
}

#[test]
fn numbers_are_written_as_the_standard_library_writes_them() {
    for v in [0i128, 1, 9, 10, 11, 99, 100, 101, 12345, -1, -9, -10, -128, 255, 65535, -32768] {
        assert_eq!(string_of(&decimal_of(v)), v.to_string());
    }
    for v in -300i128..=300 {
        assert_eq!(string_of(&decimal_of(v)), v.to_string());
    }
    assert_eq!(string_of(&decimal_of(i64::MIN as i128)), i64::MIN.to_string());
    assert_eq!(string_of(&decimal_of(u64::MAX as i128)), u64::MAX.to_string());
    assert_eq!(string_of(&element_text(i8::MIN)), "-128");
    assert_eq!(string_of(&element_text(u16::MAX)), "65535");
    assert_eq!(string_of(&element_text(0usize)), "0");
}

#[test]
fn numbers_are_read_as_the_standard_library_reads_them() {
    let digits = ['0', '1', '9', '+', '-', ' ', 'a', '5', '2', '\u{661}'];
    let mut texts: Vec<String> = vec![String::new()];
    for a in digits {
        texts.push(format!("{}", a));
        for b in digits {
            texts.push(format!("{}{}", a, b));
            for c in digits {
                texts.push(format!("{}{}{}", a, b, c));
                for d in digits {
                    texts.push(format!("{}{}{}{}", a, b, c, d));
                }
            }
        }
    }
    for text in texts {
        let token = chars(&text);
        assert_eq!(parse_element::<i8>(&token), text.parse::<i8>().ok(), "{:?}", text);
        assert_eq!(parse_element::<u8>(&token), text.parse::<u8>().ok(), "{:?}", text);
        assert_eq!(parse_element::<i32>(&token), text.parse::<i32>().ok(), "{:?}", text);
        assert_eq!(parse_element::<u64>(&token), text.parse::<u64>().ok(), "{:?}", text);
        assert_eq!(
            parse_number(&token, i16::MIN as i128, i16::MAX as i128),
            text.parse::<i16>().ok().map(|v| v as i128),
            "{:?}",
            text
        );
    }
}

#[test]
fn every_element_kind_reads_its_bounds() {
    assert_eq!(parse_element::<i8>(&chars("-128")), Some(i8::MIN));
    assert_eq!(parse_element::<i16>(&chars("32767")), Some(i16::MAX));
    assert_eq!(parse_element::<i32>(&chars("-2147483648")), Some(i32::MIN));
    assert_eq!(parse_element::<i32>(&chars("2147483648")), None);
    assert_eq!(parse_element::<i64>(&chars("9223372036854775807")), Some(i64::MAX));
    assert_eq!(parse_element::<isize>(&chars(&isize::MAX.to_string())), Some(isize::MAX));
    assert_eq!(parse_element::<u8>(&chars("255")), Some(u8::MAX));
    assert_eq!(parse_element::<u16>(&chars("65535")), Some(u16::MAX));
    assert_eq!(parse_element::<u32>(&chars("4294967295")), Some(u32::MAX));
    assert_eq!(parse_element::<u64>(&chars("18446744073709551615")), Some(u64::MAX));
    assert_eq!(parse_element::<usize>(&chars(&usize::MAX.to_string())), Some(usize::MAX));
    assert_eq!(parse_element::<usize>(&chars("-1")), None);
}
