use swal_agent::skills::{clean_yaml_value, is_skill_file, load_skills, parse_skill_file, SkillError, SkillFile, SkillLoader, SkillRegistry};

fn file(path: &str, content: &str) -> SkillFile {
    SkillFile { path: path.to_string(), content: content.to_string() }
}

#[test]
fn load_skills_reads_each_file() {
    let files = vec![
        file("d/sub1/SKILL.md", "---\nname: skill_one\ndescription: First skill\n---\nHello from Skill One!"),
        file("d/sub2/nested/SKILL.md", "---\nname: \"skill_two\"\ndescription: 'Second skill'\n---\nHello from Skill Two!"),
    ];
    let mut registry = SkillRegistry::new();
    let mut skills = load_skills(&mut registry, "d", &files).unwrap();
    assert_eq!(skills.len(), 2);
    skills.sort_by(|a, b| a.name.cmp(&b.name));
    assert_eq!(skills[0].name, "skill_one");
    assert_eq!(skills[0].description, "First skill");
    assert_eq!(skills[0].content, "Hello from Skill One!");
    assert_eq!(skills[1].name, "skill_two");
    assert_eq!(skills[1].description, "Second skill");
    assert_eq!(skills[1].content, "Hello from Skill Two!");
}

#[test]
fn load_skills_cache_hit_ignores_files() {
    let files = vec![file("d/sub/SKILL.md", "---\nname: cached_skill\ndescription: A cached skill\n---\nContent here.")];
    let mut registry = SkillRegistry::new();
    let first = load_skills(&mut registry, "d", &files).unwrap();
    assert_eq!(first.len(), 1);
    assert_eq!(first[0].name, "cached_skill");
    let second = load_skills(&mut registry, "d", &Vec::new()).unwrap();
    assert_eq!(second.len(), 1);
    assert_eq!(second[0].name, "cached_skill");
    assert!(registry.contains("d"));
}

#[test]
fn skill_loader_lru_behavior() {
    let files: Vec<SkillFile> = (1..=3)
        .map(|i| file(&format!("d/sub{}/SKILL.md", i), &format!("---\nname: skill_{}\ndescription: desc_{}\n---\ncontent_{}", i, i, i)))
        .collect();
    let mut loader = SkillLoader::new("d", &files).unwrap();
    loader.lru_capacity = 2;
    assert_eq!(loader.lru.len(), 0);
    assert_eq!(loader.get("skill_1").unwrap().name, "skill_1");
    assert_eq!(loader.lru.len(), 1);
    assert_eq!(loader.lru[0].0, "skill_1");
    loader.get("skill_2").unwrap();
    assert_eq!(loader.lru[0].0, "skill_2");
    assert_eq!(loader.lru[1].0, "skill_1");
    loader.get("skill_1").unwrap();
    assert_eq!(loader.lru[0].0, "skill_1");
    assert_eq!(loader.lru[1].0, "skill_2");
    loader.get("skill_3").unwrap();
    assert_eq!(loader.lru.len(), 2);
    assert_eq!(loader.lru[0].0, "skill_3");
    assert_eq!(loader.lru[1].0, "skill_1");
    assert!(loader.get("missing").is_none());
}

#[test]
fn skill_file_errors() {
    match parse_skill_file("no front matter", "p") {
        Err(SkillError::Io(m)) => assert!(m.contains("p")),
        _ => panic!("expected an error"),
    }
    assert!(is_skill_file("SKILL.md"));
    assert!(!is_skill_file("OTHER.md"));
    assert_eq!(clean_yaml_value("  \"quoted\" "), "quoted");
    assert_eq!(clean_yaml_value("'single'"), "single");
}
