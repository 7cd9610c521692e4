use mcmodgetter::modrinth::{
    get_top_version, project_url, version_url, versions_url, ModError, Version, VersionQuery,
};

fn version(id: &str, project: &str) -> Version {
    Version::new(
        id.to_string(),
        project.to_string(),
        format!("name of {id}"),
        format!("number of {id}"),
        Vec::new(),
        Vec::new(),
    )
}

#[test]
fn build_modrinth_query() {
    let query = VersionQuery::build_query(&String::from("1.21.9,1.21.10"), &String::from("fabric"));
    assert_eq!(query.mcvs(), "[\"1.21.9\",\"1.21.10\"]");
    assert_eq!(query.loader(), "[\"fabric\"]");
}

#[test]
fn build_modrinth_query_from_empty() {
    let query = VersionQuery::build_query(&String::from(""), &String::from(""));
    assert_eq!(query.mcvs(), "[\"\"]");
    assert_eq!(query.loader(), "[\"\"]");
}

#[test]
fn build_modrinth_query_from_random() {
    let query = VersionQuery::build_query(
        &String::from("sba,d,ugyu,,,,w,asd"),
        &String::from("asd,asd,f,a,,s,w,das,d,"),
    );
    assert_eq!(query.mcvs(), "[\"sba\",\"d\",\"ugyu\",\"\",\"\",\"\",\"w\",\"asd\"]");
    assert_eq!(
        query.loader(),
        "[\"asd\",\"asd\",\"f\",\"a\",\"\",\"s\",\"w\",\"das\",\"d\",\"\"]"
    );
}

#[test]
fn param_array_of_three_parts() {
    assert_eq!(
        VersionQuery::build_param_array(&String::from("a,b,c")),
        "[\"a\",\"b\",\"c\"]"
    );
}

#[test]
fn param_array_of_empty_text_holds_one_empty_string() {
    assert_eq!(VersionQuery::build_param_array(&String::new()), "[\"\"]");
}

#[test]
fn param_array_keeps_empty_parts() {
    assert_eq!(
        VersionQuery::build_param_array(&String::from("a,,b")),
        "[\"a\",\"\",\"b\"]"
    );
}

#[test]
fn param_array_of_commas_only() {
    assert_eq!(VersionQuery::build_param_array(&String::from(",")), "[\"\",\"\"]");
    assert_eq!(VersionQuery::build_param_array(&String::from(",,")), "[\"\",\"\",\"\"]");
}

#[test]
fn param_array_keeps_other_characters_as_they_are() {
    assert_eq!(
        VersionQuery::build_param_array(&String::from("1.21 x,né\"o")),
        "[\"1.21 x\",\"né\"o\"]"
    );
}

#[test]
fn registry_urls() {
    let base = "https://api.modrinth.com";
    assert_eq!(project_url(base, "AANobbMI"), "https://api.modrinth.com/v2/project/AANobbMI");
    assert_eq!(
        versions_url(base, "AANobbMI"),
        "https://api.modrinth.com/v2/project/AANobbMI/version"
    );
    assert_eq!(version_url(base, "7pwil2dy"), "https://api.modrinth.com/v2/version/7pwil2dy");
    assert_eq!(project_url("", ""), "/v2/project/");
}

#[test]
fn top_version_is_the_first_of_the_answer() {
    let answer = vec![version("v2", "P"), version("v1", "P")];
    let top = get_top_version(&answer, "P").unwrap();
    assert_eq!(top.id(), "v2");
    assert_eq!(top.project_id(), "P");
    assert_eq!(top.name(), "name of v2");
    assert_eq!(top.version_number(), "number of v2");
}

#[test]
fn empty_answer_has_no_top_version() {
    match get_top_version(&Vec::new(), "89Wsn8GD") {
        Err(ModError::NoVersion(msg)) => assert_eq!(msg, "No version found for id 89Wsn8GD"),
        other => panic!("unexpected: {other:?}"),
    }
}

#[test]
fn mod_error_messages() {
    assert_eq!(
        ModError::NoFile("a".to_string()).message(),
        "[MODRINTH/ERROR] No file: a"
    );
    assert_eq!(
        ModError::BadRequest("b".to_string()).message(),
        "[MODRINTH/ERROR] Bad request: b"
    );
    assert_eq!(
        ModError::NoVersion("c".to_string()).message(),
        "[MODRINTH/ERROR] No version: c"
    );
    assert_eq!(
        ModError::NoDependency(String::new()).message(),
        "[MODRINTH/ERROR] No dependency: "
    );
}
