use ass::asml_parser::tag;
use ass::printer::print_element;

// Parse, pretty-print, reparse: the round trip is the identity on the
// tree, and printing is canonical.
#[test]
fn print_roundtrip_selfclosing() {
    let e = tag("<h1(a b)/>").unwrap();
    let printed = print_element(&e);
    assert_eq!(printed, "<h1(a b)/>");
    assert_eq!(tag(&printed).unwrap(), e);
}

#[test]
fn print_roundtrip_nested() {
    let e = tag("<d>hi<e/><f>x</f></d>").unwrap();
    let printed = print_element(&e);
    assert_eq!(printed, "<d>hi<e/><f>x</f></d>");
    assert_eq!(tag(&printed).unwrap(), e);
}

#[test]
fn print_drops_comments_and_spacing() {
    let e = tag("<d>  <# note #> hi </d>").unwrap();
    let printed = print_element(&e);
    assert_eq!(printed, "<d>hi</d>");
    assert_eq!(tag(&printed).unwrap(), e);
}
