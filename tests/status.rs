use codemaker::{StatusCodes, StatusModuleMaker};

fn sample() -> StatusCodes {
    StatusCodes {
        codes: vec![
            (100, "Continue".to_string()),
            (200, "OK".to_string()),
            (404, "Not Found".to_string()),
        ],
    }
}

#[test]
fn status_module_end_to_end() {
    let maker = StatusModuleMaker::new("status_codes");
    let module = maker.make(&sample());
    assert_eq!(module.path(), "status_codes.py");
    assert_eq!(
        module.render(),
        "CONTINUE = 100\n\
         OK = 200\n\
         NOT_FOUND = 404\n\
         def status_for_code(code):\n    \
         if code == 100:\n        return \"Continue\"\n    \
         if code == 200:\n        return \"OK\"\n    \
         if code == 404:\n        return \"Not Found\"\n    \
         return \"\"\n"
    );
}

#[test]
fn status_module_with_no_codes() {
    let maker = StatusModuleMaker::new("m");
    let module = maker.make(&StatusCodes { codes: vec![] });
    assert_eq!(module.render(), "def status_for_code(code):\n    return \"\"\n");
}

#[test]
fn unknown_status_is_configurable() {
    let maker = StatusModuleMaker {
        module_name: "m".to_string(),
        unknown_status: "Unknown".to_string(),
    };
    let f = maker.lookup_function(&StatusCodes { codes: vec![(500, "Server Error".to_string())] });
    assert_eq!(
        codemaker::Statement::FuncDef(f).render(),
        "def status_for_code(code):\n    if code == 500:\n        return \"Server Error\"\n    return \"Unknown\"\n"
    );
}

#[test]
fn constant_names_are_shouty_snake_case() {
    let maker = StatusModuleMaker::new("m");
    let a = maker.constant_for(&(418, "I'm a teapot".to_string()));
    assert_eq!(a.value, "418");
    assert_ne!(a.target, "I'm a teapot");
    assert_eq!(maker.constant_for(&(404, "Not Found".to_string())).target, "NOT_FOUND");
    assert_eq!(maker.constant_for(&(301, "movedPermanently".to_string())).target, "MOVED_PERMANENTLY");
}

#[test]
fn constant_binds_name_to_code() {
    let maker = StatusModuleMaker::new("m");
    let a = maker.constant("TEAPOT".to_string(), 418);
    assert_eq!(a.target, "TEAPOT");
    assert_eq!(a.value, "418");
    let a = maker.constant("ZERO".to_string(), 0);
    assert_eq!(a.value, "0");
}
