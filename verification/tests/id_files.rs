use mcmodgetter::mmg_parse::{parse_ids, parse_ids_txt, parse_mmg_line, FileIDs, IdType};

fn lines(text: &[&str]) -> Vec<String> {
    text.iter().map(|line| line.to_string()).collect()
}

#[test]
fn parse_line_from_mmg_file() {
    let curse_line = String::from("349239 -curse");
    let modrinth_line1 = String::from("SRlzjEBS -modrinth");
    let modrinth_line2 = String::from("SRlzjEBS");
    let curse_parse = parse_mmg_line(&curse_line).expect("should be some");
    let modrinth_parse1 = parse_mmg_line(&modrinth_line1).expect("should be some");
    let modrinth_parse2 = parse_mmg_line(&modrinth_line2).expect("should be some");
    assert!(matches!(curse_parse, IdType::Curseforge("349239")));
    assert!(matches!(modrinth_parse1, IdType::Modrinth("SRlzjEBS")));
    assert!(matches!(modrinth_parse2, IdType::Modrinth("SRlzjEBS")));

    let empty = String::new();
    let empty_parse = parse_mmg_line(&empty).expect("should be some");
    assert!(matches!(empty_parse, IdType::Modrinth("")));
}

#[test]
fn only_the_second_word_names_the_registry() {
    let third = String::from("abc x -curse");
    assert!(matches!(parse_mmg_line(&third), Some(IdType::Modrinth("abc"))));
    let more = String::from("abc -curse and more");
    assert!(matches!(parse_mmg_line(&more), Some(IdType::Curseforge("abc"))));
    let longer = String::from("abc -curses");
    assert!(matches!(parse_mmg_line(&longer), Some(IdType::Modrinth("abc"))));
}

#[test]
fn blanks_at_the_edges_of_a_line() {
    let leading = String::from(" abc");
    assert!(matches!(parse_mmg_line(&leading), Some(IdType::Modrinth(""))));
    let trailing = String::from("abc ");
    assert!(matches!(parse_mmg_line(&trailing), Some(IdType::Modrinth("abc"))));
    let double = String::from("abc  -curse");
    assert!(matches!(parse_mmg_line(&double), Some(IdType::Modrinth("abc"))));
    let leading_curse = String::from(" -curse");
    assert!(matches!(parse_mmg_line(&leading_curse), Some(IdType::Curseforge(""))));
}

#[test]
fn ids_beyond_ascii() {
    let line = String::from("modé🦀 -curse");
    assert!(matches!(parse_mmg_line(&line), Some(IdType::Curseforge("modé🦀"))));
}

#[test]
fn ids_are_sorted_by_registry() {
    let ids = parse_ids(&lines(&["AANobbMI", "349239 -curse", "P7dR8mSH -modrinth", "1 -curse"]));
    assert_eq!(
        ids.modrinth(),
        &Some(vec!["AANobbMI".to_string(), "P7dR8mSH".to_string()])
    );
    assert_eq!(ids.curseforge(), &Some(vec!["349239".to_string(), "1".to_string()]));
}

#[test]
fn a_registry_without_ids_has_no_list() {
    let ids = parse_ids(&lines(&["AANobbMI"]));
    assert_eq!(ids.modrinth(), &Some(vec!["AANobbMI".to_string()]));
    assert_eq!(ids.curseforge(), &None);
    let none = parse_ids(&Vec::new());
    assert_eq!(none.modrinth(), &None);
    assert_eq!(none.curseforge(), &None);
}

#[test]
fn an_empty_line_is_an_empty_id() {
    let ids = parse_ids(&lines(&["", "x"]));
    assert_eq!(ids.modrinth(), &Some(vec![String::new(), "x".to_string()]));
}

#[test]
fn plain_lines_are_modrinth_ids() {
    let ids = parse_ids_txt(lines(&["a", "b -curse"]));
    assert_eq!(ids.modrinth(), &Some(vec!["a".to_string(), "b -curse".to_string()]));
    assert_eq!(ids.curseforge(), &None);
    let none = parse_ids_txt(Vec::new());
    assert_eq!(none.modrinth(), &None);
}

#[test]
fn file_ids_built_from_lists() {
    let both = FileIDs::build(vec!["m".to_string()], vec!["c".to_string()]);
    assert_eq!(both.modrinth(), &Some(vec!["m".to_string()]));
    assert_eq!(both.curseforge(), &Some(vec!["c".to_string()]));
    let neither = FileIDs::build(Vec::new(), Vec::new());
    assert_eq!(neither.modrinth(), &None);
    assert_eq!(neither.curseforge(), &None);
    let only = FileIDs::build_modrinth_only(vec!["m".to_string()]);
    assert_eq!(only.modrinth(), &Some(vec!["m".to_string()]));
    assert_eq!(only.curseforge(), &None);
}
