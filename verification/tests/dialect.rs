use sqlparser::dialect::Dialect;
use sqlparser::parser::Parser;
use tyr_rust::dialect::XlDialect;

#[derive(Debug, Default)]
struct UrlDialect(XlDialect);

impl Dialect for UrlDialect {
    fn is_identifier_start(&self, ch: char) -> bool {
        self.0.is_identifier_start(ch)
    }

    fn is_identifier_part(&self, ch: char) -> bool {
        self.0.is_identifier_part(ch)
    }
}

fn exmample_sql() -> String {
    let url = "https://raw.githubusercontent.com/owid/covid-19-data/master/public/data/latest/owid-covid-latest.csv";
    format!(
        "SELECT location name, total_cases, new_cases, total_deaths, new_deaths \
    FROM {} where new_deaths>=500 ORDER BY new_cases DESC LIMIT 6 OFFSET 5",
        url
    )
}

#[test]
fn dialect_it_works() {
    assert!(Parser::parse_sql(&UrlDialect::default(), &exmample_sql()).is_ok());
    let ast = Parser::parse_sql(&UrlDialect::default(), &exmample_sql()).unwrap();
    println!("{:#?}", ast);
}

#[test]
fn identifier_characters() {
    let d = XlDialect::default();
    assert!(d.is_identifier_start('a') && d.is_identifier_start('Z') && d.is_identifier_start('_'));
    assert!(!d.is_identifier_start('1') && !d.is_identifier_start(':'));
    for c in ['a', 'Z', '0', '9', ':', '/', '?', '&', '=', '-', '_', '.'] {
        assert!(d.is_identifier_part(c));
    }
    assert!(!d.is_identifier_part(' ') && !d.is_identifier_part(','));
}
