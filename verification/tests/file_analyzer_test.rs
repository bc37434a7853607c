use classlink_checker::{FileType, UnifiedAnalyzer};

#[test]
fn test_detect_markdown_files() {
    assert_eq!(UnifiedAnalyzer::detect_file_type("README.md"), FileType::Markdown);
    assert_eq!(UnifiedAnalyzer::detect_file_type("docs/api.md"), FileType::Markdown);
}

#[test]
fn test_detect_python_files() {
    assert_eq!(UnifiedAnalyzer::detect_file_type("main.py"), FileType::Python);
    assert_eq!(UnifiedAnalyzer::detect_file_type("src/models.py"), FileType::Python);
}

#[test]
fn test_detect_typescript_files() {
    assert_eq!(UnifiedAnalyzer::detect_file_type("app.ts"), FileType::TypeScript);
    assert_eq!(UnifiedAnalyzer::detect_file_type("component.tsx"), FileType::TypeScript);
}

#[test]
fn test_detect_csharp_files() {
    assert_eq!(UnifiedAnalyzer::detect_file_type("Program.cs"), FileType::CSharp);
    assert_eq!(UnifiedAnalyzer::detect_file_type("Models/User.cs"), FileType::CSharp);
}

#[test]
fn test_detect_unknown_files() {
    assert_eq!(UnifiedAnalyzer::detect_file_type("config.json"), FileType::Unknown);
    assert_eq!(UnifiedAnalyzer::detect_file_type("data.txt"), FileType::Unknown);
}

#[test]
fn test_detect_edge_paths() {
    // a leading dot alone is no extension, and case matters
    assert_eq!(UnifiedAnalyzer::detect_file_type(".md"), FileType::Unknown);
    assert_eq!(UnifiedAnalyzer::detect_file_type("noext"), FileType::Unknown);
    assert_eq!(UnifiedAnalyzer::detect_file_type("FILE.MD"), FileType::Unknown);
    assert_eq!(UnifiedAnalyzer::detect_file_type("a/.hidden.py"), FileType::Python);
    assert_eq!(UnifiedAnalyzer::detect_file_type("archive.tar.gz"), FileType::Unknown);
}

#[test]
fn test_analyze_python_classes() {
    let analyzer = UnifiedAnalyzer::new();
    let content = r#"
class UserService:
    def __init__(self):
        self.db = DatabaseConnection()

    def authenticate(self, user: User):
        pass

from models import User
from db import DatabaseConnection
"#;

    let result = analyzer.analyze_file(content, "service.py");

    assert!(result.classes.contains("UserService"));
    assert_eq!(result.links.len(), 2);

    let link_targets: Vec<String> = result.links.iter().map(|l| l.to_class.clone()).collect();
    assert!(link_targets.contains(&"User".to_string()));
    assert!(link_targets.contains(&"DatabaseConnection".to_string()));
}

#[test]
fn test_analyze_typescript_classes() {
    let analyzer = UnifiedAnalyzer::new();
    let content = r#"
import { Injectable } from '@angular/core';
import { User } from './models/User';
import { DatabaseService } from './services/database.service';

@Injectable()
export class AuthService {
    constructor(private db: DatabaseService) {}

    authenticate(user: User): boolean {
        return true;
    }
}

interface IAuthProvider {
    login(credentials: any): void;
}
"#;

    let result = analyzer.analyze_file(content, "auth.service.ts");

    assert!(result.classes.contains("AuthService"));
    assert!(result.classes.contains("IAuthProvider"));
    assert_eq!(result.links.len(), 2);

    let link_targets: Vec<String> = result.links.iter().map(|l| l.to_class.clone()).collect();
    assert!(link_targets.contains(&"User".to_string()));
    assert!(link_targets.contains(&"DatabaseService".to_string()));
}

#[test]
fn test_analyze_csharp_classes() {
    let analyzer = UnifiedAnalyzer::new();
    let content = r#"
using System;
using Domain.Models;
using Infrastructure.Data;

namespace Application.Services
{
    public class UserService : IUserService
    {
        private readonly DatabaseContext _context;

        public UserService(DatabaseContext context)
        {
            _context = context;
        }

        public User GetUser(int id)
        {
            return _context.Users.Find(id);
        }
    }

    public interface IUserService
    {
        User GetUser(int id);
    }
}
"#;

    let result = analyzer.analyze_file(content, "UserService.cs");

    assert!(result.classes.contains("UserService"));
    assert!(result.classes.contains("IUserService"));
    // four edges from the scan, and one per leftover using candidate
    // (System, Models, Data) from the last context in the post-pass
    assert_eq!(result.links.len(), 7);

    let link_targets: Vec<String> = result.links.iter().map(|l| l.to_class.clone()).collect();
    assert!(link_targets.contains(&"User".to_string()));
    assert!(link_targets.contains(&"DatabaseContext".to_string()));
    assert!(link_targets.contains(&"IUserService".to_string()));
    for cand in ["System", "Models", "Data"] {
        assert!(result.links.iter().any(|l| {
            l.from_class == "IUserService" && l.to_class == cand && l.line_number == 1
        }));
    }
}

#[test]
fn test_analyze_unknown_file_is_empty() {
    let analyzer = UnifiedAnalyzer::new();
    let result = analyzer.analyze_file("class Foo:\n", "notes.txt");
    assert_eq!(result.classes.len(), 0);
    assert_eq!(result.links.len(), 0);
}

#[test]
fn test_python_import_edge_anchors_at_line_one() {
    // an import that produced no explicit edge is linked from the last
    // context, with the line fixed at 1
    let analyzer = UnifiedAnalyzer::new();
    let content = "from models import Widget\nclass Early:\n    pass\nclass Late:\n    pass\n";
    let result = analyzer.analyze_file(content, "m.py");
    assert_eq!(result.links.len(), 1);
    assert_eq!(result.links[0].from_class, "Late");
    assert_eq!(result.links[0].to_class, "Widget");
    assert_eq!(result.links[0].line_number, 1);
}

#[test]
fn test_csharp_import_edge_anchors_at_line_one() {
    // a using candidate with no explicit edge is linked from the last
    // context, with the line fixed at 1
    let analyzer = UnifiedAnalyzer::new();
    let content = "using Core.Widget;\nclass Early { }\nclass Late { }\n";
    let result = analyzer.analyze_file(content, "m.cs");
    assert_eq!(result.links.len(), 1);
    assert_eq!(result.links[0].from_class, "Late");
    assert_eq!(result.links[0].to_class, "Widget");
    assert_eq!(result.links[0].line_number, 1);
}

#[test]
fn test_analyze_empty_content() {
    let analyzer = UnifiedAnalyzer::new();
    let result = analyzer.analyze_file("", "empty.py");
    assert_eq!(result.classes.len(), 0);
    assert_eq!(result.links.len(), 0);
}
