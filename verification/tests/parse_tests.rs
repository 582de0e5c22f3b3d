use troll::constval;
use troll::dice;
use troll::expr;
use troll::roll;
use troll::sum;
use troll::Atom;
use troll::Expr;
use troll::ParseErr;
use troll::Tuple;

#[test]
fn test_parse_atom() {
    assert_eq!(
        constval("123".as_bytes()),
        Ok(("".as_bytes(), Atom::ConstVal(123)))
    );
    assert_eq!(
        constval("123abc".as_bytes()),
        Ok(("abc".as_bytes(), Atom::ConstVal(123)))
    );
    assert_eq!(constval("1234".as_bytes()), Err(ParseErr::Failure));
    assert_eq!(
        roll("1d6".as_bytes()),
        Ok(("".as_bytes(), Atom::Roll(Box::new(Atom::ConstVal(6)))))
    );
    assert_eq!(
        roll("d6".as_bytes()),
        Ok(("".as_bytes(), Atom::Roll(Box::new(Atom::ConstVal(6)))))
    );
    assert_eq!(
        roll("dd6".as_bytes()),
        Ok((
            "".as_bytes(),
            Atom::Roll(Box::new(Atom::Roll(Box::new(Atom::ConstVal(6)))))
        ))
    );
    assert_eq!(
        sum(" sum  3d6".as_bytes()),
        Ok((
            "".as_bytes(),
            Atom::Sum(Tuple::Dice(
                Box::new(Atom::ConstVal(3)),
                Box::new(Atom::Roll(Box::new(Atom::ConstVal(6))))
            ))
        ))
    );
}

#[test]
fn test_parse_dice() {
    assert_eq!(
        dice("3d6".as_bytes()),
        Ok((
            "".as_bytes(),
            Tuple::Dice(
                Box::new(Atom::ConstVal(3)),
                Box::new(Atom::Roll(Box::new(Atom::ConstVal(6))))
            )
        ))
    );
    assert_eq!(
        dice("3 d 6".as_bytes()),
        Ok((
            "".as_bytes(),
            Tuple::Dice(
                Box::new(Atom::ConstVal(3)),
                Box::new(Atom::Roll(Box::new(Atom::ConstVal(6))))
            )
        ))
    );
    assert_eq!(
        dice("(1d6) d d6".as_bytes()),
        Ok((
            "".as_bytes(),
            Tuple::Dice(
                Box::new(Atom::Roll(Box::new(Atom::ConstVal(6)))),
                Box::new(Atom::Roll(Box::new(Atom::Roll(Box::new(Atom::ConstVal(
                    6
                )))))),
            )
        ))
    );
    assert_eq!(dice("3d".as_bytes()), Err(ParseErr::Incomplete));
}

#[test]
fn test_parse_expr() {
    assert_eq!(
        expr("(1d6) d d6".as_bytes()),
        Ok((
            "".as_bytes(),
            Expr::Tuple(Tuple::Dice(
                Box::new(Atom::Roll(Box::new(Atom::ConstVal(6)))),
                Box::new(Atom::Roll(Box::new(Atom::Roll(Box::new(Atom::ConstVal(
                    6
                )))))),
            ))
        ))
    );

    assert_eq!(
        expr("d6".as_bytes()),
        Ok((
            "".as_bytes(),
            Expr::Atom(Atom::Roll(Box::new(Atom::ConstVal(6))))
        ))
    );
}

#[test]
fn parse_is_deterministic() {
    assert_eq!(expr("3d6".as_bytes()), expr("3d6".as_bytes()));
    assert_eq!(
        expr("3d6".as_bytes()),
        Ok((
            "".as_bytes(),
            Expr::Tuple(Tuple::Dice(
                Box::new(Atom::ConstVal(3)),
                Box::new(Atom::Roll(Box::new(Atom::ConstVal(6))))
            ))
        ))
    );
    assert_eq!(
        expr("(1d6) d d6".as_bytes()),
        expr("(1d6) d d6".as_bytes())
    );
}

#[test]
fn parse_leading_one_is_inert() {
    assert_eq!(expr("d6".as_bytes()), expr("1d6".as_bytes()));
    assert_eq!(expr("d20".as_bytes()), expr("1d20".as_bytes()));
}

#[test]
fn parse_lone_one_is_a_literal() {
    assert_eq!(
        expr("1".as_bytes()),
        Ok(("".as_bytes(), Expr::Atom(Atom::ConstVal(1))))
    );
}

#[test]
fn parse_literal_leaves_trailing_input() {
    assert_eq!(
        expr("3d".as_bytes()),
        Ok(("d".as_bytes(), Expr::Atom(Atom::ConstVal(3))))
    );
}
