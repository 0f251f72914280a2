use netlist_ir::ast::{Identifier, Module, TranslationUnit};
use netlist_ir::error::ElabError;
use netlist_ir::parser::Parser;

fn named_module(name: &str) -> Module {
    Module {
        name: Identifier(String::from(name)),
        params: vec![],
        body: vec![],
    }
}

#[test]
fn parse_registers_in_order() {
    let mut p = Parser::new();
    let unit = TranslationUnit {
        modules: vec![named_module("alpha"), named_module("beta")],
    };
    assert!(p.parse(unit).is_ok());
    assert_eq!(p.modules().len(), 2);
    assert_eq!(p.modules()[0].name.0, "alpha");
    assert_eq!(p.modules()[1].name.0, "beta");
}

#[test]
fn parse_rejects_duplicate_within_unit() {
    let mut p = Parser::new();
    let unit = TranslationUnit {
        modules: vec![named_module("m"), named_module("m")],
    };
    assert_eq!(
        p.parse(unit).err(),
        Some(ElabError::DuplicateModule { name: String::from("m") })
    );
    // The whole unit was rejected: nothing was registered.
    assert_eq!(p.modules().len(), 0);
}

#[test]
fn parse_rejects_duplicate_across_units() {
    let mut p = Parser::new();
    let first = TranslationUnit { modules: vec![named_module("m")] };
    assert!(p.parse(first).is_ok());
    let second = TranslationUnit {
        modules: vec![named_module("other"), named_module("m")],
    };
    assert_eq!(
        p.parse(second).err(),
        Some(ElabError::DuplicateModule { name: String::from("m") })
    );
    // The registry still holds exactly the first unit's module.
    assert_eq!(p.modules().len(), 1);
    assert_eq!(p.modules()[0].name.0, "m");
}
