use std::sync::Arc;

use nuclaw::skills::{builtin_skills, BuiltinSkillRegistry, Skill};

#[test]
fn test_builtin_skill_registry_has_skills() {
    let registry = BuiltinSkillRegistry::new();
    assert!(!registry.names().is_empty());
}

#[test]
fn test_get_skill_github() {
    let registry = BuiltinSkillRegistry::new();
    let skill = registry.get("github");
    assert!(skill.is_some());
    let skill = skill.unwrap();
    assert_eq!(skill.name, "github");
    assert!(skill.description.contains("GitHub"));
}

#[test]
fn test_get_skill_weather() {
    let registry = BuiltinSkillRegistry::new();
    let skill = registry.get("weather");
    assert!(skill.is_some());
}

#[test]
fn test_get_skill_nonexistent() {
    let registry = BuiltinSkillRegistry::new();
    let skill = registry.get("nonexistent");
    assert!(skill.is_none());
}

#[test]
fn test_list_skills() {
    let registry = BuiltinSkillRegistry::new();
    let skills = registry.list();
    assert!(skills.len() >= 4);
}

#[test]
fn test_names() {
    let registry = BuiltinSkillRegistry::new();
    let names = registry.names();
    assert!(names.contains(&"github".to_string()));
    assert!(names.contains(&"weather".to_string()));
    assert!(names.contains(&"search".to_string()));
    assert!(names.contains(&"memory".to_string()));
}

#[test]
fn test_register_custom_skill() {
    let mut registry = BuiltinSkillRegistry::new();
    let custom = Skill::new("custom", "A custom skill", "Custom content");
    registry.register(custom);

    let skill = registry.get("custom");
    assert!(skill.is_some());
    assert_eq!(skill.unwrap().name, "custom");
}

#[test]
fn test_skill_content() {
    let registry = BuiltinSkillRegistry::new();
    let skill = registry.get("github").unwrap();
    assert!(skill.content.contains("GitHub"));
}

#[test]
fn test_builtin_skills_function() {
    let registry = builtin_skills();
    assert!(!registry.names().is_empty());
}

#[test]
fn test_skill_is_arc() {
    let registry = BuiltinSkillRegistry::new();
    let skill1 = registry.get("github").unwrap();
    let skill2 = registry.get("github").unwrap();
    assert!(Arc::ptr_eq(&skill1, &skill2));
}

#[test]
fn register_same_name_replaces_skill() {
    let mut registry = BuiltinSkillRegistry::new();
    registry.register(Skill::new("github", "other", "body"));
    assert_eq!(registry.names().len(), 4);
    assert_eq!(registry.get("github").unwrap().description, "other");
}
