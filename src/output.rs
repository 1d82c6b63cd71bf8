//! The findings as a JSON document, built with the `json` crate.
use vstd::prelude::*;
use crate::cli::CommandLineSettings;
use crate::data::Package;

verus! {

#[verifier::external_type_specification]
#[verifier::external_body]
pub struct ExJsonValue(json::JsonValue);

/// Relies on `json::JsonValue::new_array`: an empty JSON array.
#[verifier::external_body]
fn new_array() -> json::JsonValue {
    json::JsonValue::new_array()
}

/// Relies on `json::JsonValue::new_object`: an empty JSON object.
#[verifier::external_body]
fn new_object() -> json::JsonValue {
    json::JsonValue::new_object()
}

/// Relies on `From<String> for json::JsonValue`: a JSON string.
#[verifier::external_body]
fn json_text(s: &String) -> json::JsonValue {
    json::JsonValue::from(s.clone())
}

/// Relies on `json::JsonValue::push`: appends to an array. It refuses only a
/// value that is not an array, and every array here comes from `new_array`.
#[verifier::external_body]
fn push(array: &mut json::JsonValue, value: json::JsonValue) {
    let _ = array.push(value);
}

/// Relies on `IndexMut<&str> for json::JsonValue`: sets the member `key` of
/// an object (a value that is not an object is replaced by one).
#[verifier::external_body]
fn set_member(object: &mut json::JsonValue, key: &str, value: json::JsonValue) {
    object[key] = value;
}

/// Relies on `json::JsonValue::dump`: the compact JSON text of the value.
#[verifier::external_body]
fn dump(value: &json::JsonValue) -> String {
    value.dump()
}

fn string_array(values: &Vec<String>) -> json::JsonValue {
    let mut array = new_array();
    let mut i: usize = 0;
    while i < values.len()
        invariant
            i <= values@.len(),
        decreases values@.len() - i,
    {
        push(&mut array, json_text(&values[i]));
        i = i + 1;
    }
    array
}

/// The file records of the package: `file_name` and `library_dependencies`.
fn print_json_file_dependencies(package: &Package) -> json::JsonValue {
    let mut array = new_array();
    let mut i: usize = 0;
    while i < package.file_dependencies.len()
        invariant
            i <= package.file_dependencies@.len(),
        decreases package.file_dependencies@.len() - i,
    {
        let dependency = &package.file_dependencies[i];
        let mut entry = new_object();
        set_member(&mut entry, "file_name", json_text(&dependency.file_name));
        set_member(&mut entry, "library_dependencies", string_array(&dependency.library_dependencies));
        push(&mut array, entry);
        i = i + 1;
    }
    array
}

/// The per-library index of the package: `library_name` and `files_requiring`.
fn print_json_library_requirements(package: &Package) -> json::JsonValue {
    let mut array = new_array();
    let mut i: usize = 0;
    while i < package.library_requirements.len()
        invariant
            i <= package.library_requirements@.len(),
        decreases package.library_requirements@.len() - i,
    {
        let library = &package.library_requirements[i];
        let mut entry = new_object();
        set_member(&mut entry, "library_name", json_text(&library.library_name));
        set_member(&mut entry, "files_requiring", string_array(&library.files_requiring));
        push(&mut array, entry);
        i = i + 1;
    }
    array
}

/// The providing-package index: `library_name` and `packages_containing`.
fn print_json_packages_containing(package: &Package) -> json::JsonValue {
    let mut array = new_array();
    let mut i: usize = 0;
    while i < package.packages_containing.len()
        invariant
            i <= package.packages_containing@.len(),
        decreases package.packages_containing@.len() - i,
    {
        let containing = &package.packages_containing[i];
        let mut entry = new_object();
        set_member(&mut entry, "library_name", json_text(&containing.library_name));
        set_member(&mut entry, "packages_containing", string_array(&containing.packages_containing));
        push(&mut array, entry);
        i = i + 1;
    }
    array
}

/// The findings as one JSON array with an object for each package: its
/// `package_name`, and the groupings that the settings ask for.
pub fn print_json(packages: &Vec<Package>, settings: &CommandLineSettings) -> String {
    let mut json_packages = new_array();
    let mut i: usize = 0;
    while i < packages.len()
        invariant
            i <= packages@.len(),
        decreases packages@.len() - i,
    {
        let package = &packages[i];
        let mut json_package = new_object();
        set_member(&mut json_package, "package_name", json_text(&package.name));
        if settings.group_by_file {
            set_member(&mut json_package, "file_dependencies", print_json_file_dependencies(package));
        }
        if settings.group_by_library {
            set_member(
                &mut json_package,
                "library_requirements",
                print_json_library_requirements(package),
            );
        }
        if settings.group_by_containing_package {
            set_member(
                &mut json_package,
                "packages_containing",
                print_json_packages_containing(package),
            );
        }
        push(&mut json_packages, json_package);
        i = i + 1;
    }
    dump(&json_packages)
}

} // verus!
