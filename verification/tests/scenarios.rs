use matrix::tokenize;
use matrix::Matrix;
use matrix::ParseMatrixError;

#[test]
fn it_works() {
    let x = Matrix::new(2, 3, &[-2, -1, 0, 1, 2, 3]);
    let y = Matrix::new(2, 3, &[1, 2, 3, 4, 5, 6]);
    assert_eq!(&x + &y - &y, x);
    assert_eq!(x.to_string(), "[-2,-1,0;1,2,3]");
    let z = "[-2,-1,0;1,2,3]".parse::<Matrix<i32>>().unwrap();
    assert_eq!(x, z);
    assert_eq!(x.transposition(), Matrix::new(3, 2, &[-2, 1, -1, 2, 0, 3]));
}

#[test]
fn sample() {
    let _x = " [1,2,3; 4,5,6; 7,8,9]".parse::<Matrix<i32>>();
    assert_eq!(Ok(Matrix::new(3, 3, &[1, 2, 3, 4, 5, 6, 7, 8, 9])), _x);
    let mut x = _x.unwrap();
    assert_eq!(x.to_string(), "[1,2,3;4,5,6;7,8,9]");

    let mut t;
    t = "1,2,3; 4,5,6; 7,8,9]".parse::<Matrix<i32>>();
    assert_eq!(Err(ParseMatrixError::WrongBracketFormat), t);

    t = "[1,2,x; 4,5,6; 7,8,9]".parse::<Matrix<i32>>();
    assert_eq!(Err(ParseMatrixError::ParseNumberError), t);

    t = "[1,2,; 4,5,6; 7,8,9]".parse::<Matrix<i32>>();
    assert_eq!(Err(ParseMatrixError::ParseNumberError), t);

    t = "[1,2; 4,5,6; 7,8,9]".parse::<Matrix<i32>>();
    assert_eq!(Err(ParseMatrixError::ColumnsNotAligned), t);

    let y = "[0,1,2; 3,4,5; 6,7,8]".parse::<Matrix<i32>>().unwrap();
    let mut z;
    z = &x + &y;
    assert_eq!(z.to_string(), "[1,3,5;7,9,11;13,15,17]");

    z = &x - &y;
    assert_eq!(z.to_string(), "[1,1,1;1,1,1;1,1,1]");

    z = &x * 2;
    assert_eq!(z.to_string(), "[2,4,6;8,10,12;14,16,18]");

    z = &x * &y;
    assert_eq!(z.to_string(), "[24,30,36;51,66,81;78,102,126]");

    // The quotient has fractional cells: each is computed here and the
    // library lays them out.
    let halves: Vec<String> = z
        .as_slice()
        .iter()
        .map(|cell| format!("{}", f64::from(*cell) / f64::from(2)))
        .collect();
    assert_eq!(z.format_cells(&halves), "[12,15,18;25.5,33,40.5;39,51,63]");

    assert_eq!(x == y, false);

    assert!(x == "[1,2,3; 4,5,6;7,8,9]".parse::<Matrix<i32>>().unwrap());

    assert_eq!(x.is_identity(), false);

    assert!("[1,0,0,0; 0,1,0,0; 0,0,1,0; 0,0,0,1]"
        .parse::<Matrix<i32>>()
        .unwrap()
        .is_identity());

    // The same text read cell by cell as fractional numbers.
    let cells = tokenize("[1,0,0,0; 0,1,0,0; 0,0,1,0; 0,0,0,1]").unwrap();
    let read: Vec<Vec<Option<f64>>> = cells
        .iter()
        .map(|row| row.iter().map(|cell| cell.parse::<f64>().ok()).collect())
        .collect();
    let unit = Matrix::from_rows(&read).unwrap();
    assert_eq!(unit.shape(), (4, 4));
    for i in 0..4 {
        for j in 0..4 {
            assert_eq!(unit[(i, j)], if i == j { 1.0 } else { 0.0 });
        }
    }

    assert!(x.is_square());

    assert!("[1,2,3,4; 0,1,4,0; 0,0,1,0; 0,0,0,1]"
        .parse::<Matrix<i32>>()
        .unwrap()
        .is_square());

    assert_eq!(x[(2, 1)], 8);

    assert_eq!(x.set(1, 2, 0), Ok(()));
    assert_eq!(x.to_string(), "[1,2,3;4,5,0;7,8,9]");

    let m = Matrix::new(2, 3, &[-2, -1, 0, 1, 2, 3]);
    assert_eq!(m.transposition(), Matrix::new(3, 2, &[-2, 1, -1, 2, 0, 3]));
}
