use mjai_review::dom::{Attribute, Document, DocumentBuilder};
use mjai_review::model::{ActionElement, ParseError, Parsed};
use mjai_review::parser::Parser;
use mjai_review::score::Score;
use mjai_review::summary::tally;

fn classes(names: &[&str]) -> Vec<String> {
    names.iter().map(|s| s.to_string()).collect()
}

fn attrs(pairs: &[(&str, &str)]) -> Vec<Attribute> {
    pairs
        .iter()
        .map(|(n, v)| Attribute { name: n.to_string(), value: v.to_string() })
        .collect()
}

fn el(b: &mut DocumentBuilder, name: &str, cls: &[&str]) -> usize {
    b.open_element(name, classes(cls), Vec::new())
}

/// A tile: `svg.tile > use.face[href]`, or without the href.
fn tile(b: &mut DocumentBuilder, face: Option<&str>) {
    el(b, "svg", &["tile"]);
    let a = match face {
        Some(f) => attrs(&[("href", f)]),
        None => Vec::new(),
    };
    b.open_element("use", classes(&["face"]), a);
    b.close();
    b.close();
}

/// One score cell: `td > span.int + span.frac`.
fn score_cell(b: &mut DocumentBuilder, int_part: &str, frac_part: &str) {
    el(b, "td", &[]);
    el(b, "span", &["int"]);
    b.text(int_part);
    b.close();
    el(b, "span", &["frac"]);
    b.text(frac_part);
    b.close();
    b.close();
}

struct Row<'a> {
    word: &'a str,
    face: &'a str,
    q: (&'a str, &'a str),
}

struct TurnSpec<'a> {
    player: (&'a str, &'a str, &'a str),
    mortal: (&'a str, &'a str, &'a str),
    rows: Vec<Row<'a>>,
}

fn role(b: &mut DocumentBuilder, label: &str, word: &str, face: &str) {
    el(b, "div", &[]);
    el(b, "span", &["role"]);
    b.text(label);
    b.close();
    b.text(word);
    tile(b, Some(face));
    el(b, "details", &[]);
    b.close();
    b.close();
}

fn turn(b: &mut DocumentBuilder, t: &TurnSpec) {
    el(b, "summary", &[]);
    b.close();
    el(b, "details", &[]);
    role(b, t.player.0, t.player.1, t.player.2);
    role(b, t.mortal.0, t.mortal.1, t.mortal.2);
    el(b, "details", &[]);
    el(b, "table", &[]);
    el(b, "tbody", &[]);
    for r in &t.rows {
        el(b, "tr", &[]);
        el(b, "td", &[]);
        b.text(r.word);
        tile(b, Some(r.face));
        b.close();
        score_cell(b, r.q.0, r.q.1);
        score_cell(b, "0.", "50");
        b.close();
    }
    b.close();
    b.close();
    b.close();
    b.close();
}

/// A report with one round per entry of `rounds`, each turn in a `div`
/// that is the fourth child of its container.
fn report(rounds: &[Vec<TurnSpec>]) -> Document {
    let mut b = DocumentBuilder::new();
    el(&mut b, "html", &[]);
    el(&mut b, "body", &[]);
    for (i, turns) in rounds.iter().enumerate() {
        el(&mut b, "section", &[]);
        let id = format!("kyoku-{}", i);
        b.open_element("h1", classes(&["kyoku-heading"]), attrs(&[("id", id.as_str())]));
        b.text("East 1");
        b.close();
        el(&mut b, "p", &[]);
        b.close();
        el(&mut b, "p", &[]);
        b.close();
        for t in turns {
            el(&mut b, "article", &[]);
            for _ in 0..3 {
                el(&mut b, "p", &[]);
                b.close();
            }
            el(&mut b, "div", &[]);
            turn(&mut b, t);
            b.close();
            b.close();
        }
        b.close();
    }
    b.finish()
}

fn same_turn<'a>(q1: (&'a str, &'a str), q2: (&'a str, &'a str)) -> TurnSpec<'a> {
    TurnSpec {
        player: ("Player: ", " Discard ", "#5m"),
        mortal: ("Mortal: ", "Discard", "#5m"),
        rows: vec![
            Row { word: "Discard", face: "#5m", q: q1 },
            Row { word: "Discard", face: "#9p", q: q2 },
        ],
    }
}

/// The score's literal, read as an `f32`.
fn to_f32(s: &Score) -> f32 {
    let split = s.digits.len() - s.scale;
    let whole: String = s.digits[..split].iter().collect();
    let part: String = s.digits[split..].iter().collect();
    let exp: String = s.exp_digits.iter().collect();
    let mut text = format!("{}{}.{}", if s.negative { "-" } else { "" }, whole, part);
    if !exp.is_empty() {
        text = format!("{}e{}{}", text, if s.exp_negative { "-" } else { "" }, exp);
    }
    text.parse().unwrap()
}

fn average_loss(p: &Parsed) -> f64 {
    let mut loss = 0.0;
    let mut count = 0.0;
    for r in &p.rounds {
        for t in &r.turns {
            count += 1.0;
            loss += (to_f32(&t.actions[t.mortal].quality) - to_f32(&t.actions[t.player].quality)).abs() as f64;
        }
    }
    loss / count
}

fn parse(d: &Document) -> Result<Parsed, ParseError> {
    Parser::new().parse(d)
}

#[test]
fn one_turn_matching_row_zero() {
    let d = report(&[vec![same_turn(("1.", "20"), ("3.", "40"))]]);
    let p = parse(&d).unwrap();
    assert_eq!(p.rounds.len(), 1);
    let t = &p.rounds[0].turns[0];
    assert_eq!(t.player, 0);
    assert_eq!(t.mortal, 0);
    assert_eq!(t.actions.len(), 2);
    assert_eq!(to_f32(&t.actions[0].quality), 1.2f32);
    assert_eq!(to_f32(&t.actions[1].quality), 3.4f32);
    assert_eq!(t.actions[0].quality.digits, vec!['1', '2', '0']);
    assert_eq!(t.actions[0].quality.scale, 2);
    let tl = tally(&p);
    assert_eq!(tl.turns, 1);
    assert_eq!(tl.correct, 1);
    assert_eq!(format!("{:.3}", average_loss(&p)), "0.000");
    assert_eq!(format!("{:.3}", tl.correct as f64 / tl.turns as f64), "1.000");
}

#[test]
fn two_turns_half_agree() {
    let mut second = same_turn(("0.", "50"), ("2.", "00"));
    second.mortal = ("Mortal: ", "Discard", "#9p");
    let d = report(&[vec![same_turn(("1.", "20"), ("3.", "40")), second]]);
    let p = parse(&d).unwrap();
    let turns = &p.rounds[0].turns;
    assert_eq!(turns.len(), 2);
    assert_eq!((turns[1].player, turns[1].mortal), (0, 1));
    let tl = tally(&p);
    assert_eq!((tl.turns, tl.correct), (2, 1));
    assert_eq!(format!("{:.3}", average_loss(&p)), "0.750");
    assert_eq!(format!("{:.3}", tl.correct as f64 / tl.turns as f64), "0.500");
}

#[test]
fn rounds_in_document_order() {
    let d = report(&[
        vec![same_turn(("1.", "20"), ("3.", "40"))],
        vec![same_turn(("1.", "20"), ("3.", "40")), same_turn(("1.", "20"), ("3.", "40"))],
    ]);
    let p = parse(&d).unwrap();
    assert_eq!(p.rounds.len(), 2);
    assert_eq!(p.rounds[0].turns.len(), 1);
    assert_eq!(p.rounds[1].turns.len(), 2);
    assert_eq!(tally(&p).turns, 3);
}

#[test]
fn empty_document_has_no_rounds() {
    let d = DocumentBuilder::new().finish();
    let p = parse(&d).unwrap();
    assert_eq!(p.rounds.len(), 0);
    assert_eq!(tally(&p).turns, 0);
}

#[test]
fn choices_point_into_actions() {
    let mut second = same_turn(("0.", "50"), ("2.", "00"));
    second.mortal = ("Mortal: ", "Discard", "#9p");
    let d = report(&[vec![same_turn(("1.", "20"), ("3.", "40")), second]]);
    let p = parse(&d).unwrap();
    for r in &p.rounds {
        for t in &r.turns {
            assert!(t.player < t.actions.len());
            assert!(t.mortal < t.actions.len());
        }
    }
}

#[test]
fn role_text_is_trimmed() {
    let d = report(&[vec![same_turn(("1.", "20"), ("3.", "40"))]]);
    let p = parse(&d).unwrap();
    let a = &p.rounds[0].turns[0].actions[0].action;
    assert_eq!(a.elements.len(), 2);
    match &a.elements[0] {
        ActionElement::Text(s) => assert_eq!(s, "Discard"),
        _ => panic!("expected a word"),
    }
    match &a.elements[1] {
        ActionElement::Tile(s) => assert_eq!(s, "#5m"),
        _ => panic!("expected a tile"),
    }
}

#[test]
fn extraction_is_repeatable() {
    let d = report(&[vec![same_turn(("1.", "20"), ("3.", "40"))]]);
    let a = parse(&d).unwrap();
    let b = parse(&d).unwrap();
    assert_eq!(format!("{:?}", a), format!("{:?}", b));
}

#[test]
fn unmatched_role_is_action_not_found() {
    let mut t = same_turn(("1.", "20"), ("3.", "40"));
    t.mortal = ("Mortal: ", "Discard", "#1s");
    let d = report(&[vec![t]]);
    assert_eq!(parse(&d).unwrap_err(), ParseError::ActionNotFound);
}

#[test]
fn integer_part_without_point_is_structure_error() {
    let d = report(&[vec![same_turn(("1", "20"), ("3.", "40"))]]);
    assert_eq!(parse(&d).unwrap_err(), ParseError::Structure);
}

#[test]
fn exponent_in_fraction_is_read() {
    let d = report(&[vec![same_turn(("1.", "5e3"), ("3.", "40"))]]);
    let p = parse(&d).unwrap();
    assert_eq!(to_f32(&p.rounds[0].turns[0].actions[0].quality), 1500.0f32);
}

#[test]
fn bad_fraction_is_numeric_format_error() {
    let d = report(&[vec![same_turn(("1.", "2x"), ("3.", "40"))]]);
    assert_eq!(parse(&d).unwrap_err(), ParseError::NumericFormat);
}

#[test]
fn wrong_label_is_role_label_mismatch() {
    let mut t = same_turn(("1.", "20"), ("3.", "40"));
    t.player = ("Someone: ", "Discard", "#5m");
    let d = report(&[vec![t]]);
    assert_eq!(parse(&d).unwrap_err(), ParseError::RoleLabelMismatch);
}

fn one_turn_doc(body: impl Fn(&mut DocumentBuilder)) -> Document {
    let mut b = DocumentBuilder::new();
    el(&mut b, "html", &[]);
    el(&mut b, "body", &[]);
    el(&mut b, "section", &[]);
    b.open_element("h1", classes(&["kyoku-heading"]), attrs(&[("id", "k0")]));
    b.close();
    el(&mut b, "p", &[]);
    b.close();
    el(&mut b, "p", &[]);
    b.close();
    el(&mut b, "div", &[]);
    el(&mut b, "summary", &[]);
    b.close();
    el(&mut b, "details", &[]);
    body(&mut b);
    b.finish()
}

#[test]
fn one_role_is_role_count_error() {
    let d = one_turn_doc(|b| role(b, "Player: ", "Discard", "#5m"));
    assert_eq!(parse(&d).unwrap_err(), ParseError::RoleCount);
}

#[test]
fn three_roles_is_unexpected_role_error() {
    let d = one_turn_doc(|b| {
        role(b, "Player: ", "Discard", "#5m");
        role(b, "Mortal: ", "Discard", "#5m");
        role(b, "Mortal: ", "Discard", "#5m");
    });
    assert_eq!(parse(&d).unwrap_err(), ParseError::UnexpectedRole);
}

#[test]
fn blank_role_action_is_empty_action_error() {
    let d = one_turn_doc(|b| {
        el(b, "div", &[]);
        el(b, "span", &["role"]);
        b.text("Player: ");
        b.close();
        b.text("   ");
        b.close();
        role(b, "Mortal: ", "Discard", "#5m");
    });
    assert_eq!(parse(&d).unwrap_err(), ParseError::EmptyAction);
}

#[test]
fn tile_without_href_is_missing_attribute_error() {
    let d = one_turn_doc(|b| {
        el(b, "div", &[]);
        el(b, "span", &["role"]);
        b.text("Player: ");
        b.close();
        tile(b, None);
        b.close();
        role(b, "Mortal: ", "Discard", "#5m");
    });
    assert_eq!(parse(&d).unwrap_err(), ParseError::MissingAttribute);
}

#[test]
fn two_cell_row_is_row_shape_error() {
    let d = one_turn_doc(|b| {
        role(b, "Player: ", "Discard", "#5m");
        role(b, "Mortal: ", "Discard", "#5m");
        el(b, "details", &[]);
        el(b, "table", &[]);
        el(b, "tbody", &[]);
        el(b, "tr", &[]);
        el(b, "td", &[]);
        b.text("Discard");
        b.close();
        score_cell(b, "1.", "00");
    });
    assert_eq!(parse(&d).unwrap_err(), ParseError::RowShape);
}

#[test]
fn heading_without_id_is_missing_id_error() {
    let mut b = DocumentBuilder::new();
    el(&mut b, "html", &[]);
    el(&mut b, "body", &[]);
    el(&mut b, "section", &[]);
    el(&mut b, "h1", &["kyoku-heading"]);
    let d = b.finish();
    assert_eq!(parse(&d).unwrap_err(), ParseError::MissingId);
}

#[test]
fn heading_outside_section_is_not_a_round() {
    let mut b = DocumentBuilder::new();
    el(&mut b, "html", &[]);
    el(&mut b, "body", &[]);
    el(&mut b, "div", &[]);
    el(&mut b, "h1", &["kyoku-heading"]);
    let d = b.finish();
    assert_eq!(parse(&d).unwrap().rounds.len(), 0);
}
