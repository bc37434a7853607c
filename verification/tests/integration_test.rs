use classlink_checker::{AnalysisResult, LinkAnalyzer, UnifiedAnalyzer};

fn analyze_project(files: &[(&str, &str)]) -> AnalysisResult {
    let unified_analyzer = UnifiedAnalyzer::new();
    let mut all = AnalysisResult::new();
    for (path, content) in files {
        let result = unified_analyzer.analyze_file(content, path);
        all.merge(result);
    }
    all
}

#[test]
fn test_multi_language_project_analysis() {
    let python_content = r#"
from database import DatabaseConnection
from models import User

class UserService:
    def __init__(self):
        self.db = DatabaseConnection()

    def get_user(self, id: int) -> User:
        return self.db.find(User, id)
"#;

    let typescript_content = r#"
import { User } from './models/User';
import { UserService } from './services/UserService';

export class UserController {
    constructor(private userService: UserService) {}

    async getUser(id: number): Promise<User> {
        return this.userService.getUser(id);
    }
}
"#;

    let csharp_content = r#"
using Domain.Models;

namespace Application
{
    public class UserRepository
    {
        public User GetById(int id)
        {
            return new User { Id = id };
        }
    }
}
"#;

    let markdown_content = "# User\n\nThe User class is used by [UserService](UserService.md), [UserController](UserController.md), and [UserRepository](UserRepository.md).\n";

    let all = analyze_project(
        &[
            ("service.py", python_content),
            ("controller.ts", typescript_content),
            ("repository.cs", csharp_content),
            ("User.md", markdown_content),
        ],
    );

    let link_analyzer = LinkAnalyzer::new();
    let stats = link_analyzer.analyze(all.classes, all.links);

    assert_eq!(stats.total_classes, 4);
    assert_eq!(stats.isolated_classes.len(), 0);

    if let Some((class_name, link_count)) = &stats.most_linked_class {
        assert_eq!(class_name, "User");
        assert!(*link_count >= 3);
    } else {
        panic!("Expected most_linked_class to be Some");
    }
}

#[test]
fn test_isolated_class_detection() {
    let python_content = r#"
class ConnectedClass:
    def __init__(self):
        self.helper = HelperClass()

class HelperClass:
    pass

class IsolatedClass:
    pass
"#;

    let typescript_content = "\nexport class AnotherIsolatedClass {\n    // No dependencies or references\n}\n";

    let all = analyze_project(
        &[("module.py", python_content), ("isolated.ts", typescript_content)],
    );

    let link_analyzer = LinkAnalyzer::new();
    let stats = link_analyzer.analyze(all.classes, all.links);

    assert_eq!(stats.isolated_classes.len(), 2);
    assert!(stats.isolated_classes.contains(&"IsolatedClass".to_string()));
    assert!(stats.isolated_classes.contains(&"AnotherIsolatedClass".to_string()));
}

#[test]
fn test_cross_language_merge_user_is_hub() {
    // a Python service importing User, a TypeScript service referencing
    // User, and a Markdown page declaring User and linking to the others:
    // merged, User has the highest incoming count
    let python_content = "class UserService:\n    pass\n\nfrom models import User\nfrom db import DatabaseConnection\n";
    let typescript_content = r#"
import { User } from './models/User';
import { DatabaseService } from './services/database.service';

export class AuthService {
    constructor(private db: DatabaseService) {}

    authenticate(user: User): boolean {
        return true;
    }
}

interface IAuthProvider {
    login(credentials: any): void;
}
"#;
    let markdown_content = "# User\n\nSee [UserService](UserService.md), [AuthService](AuthService.md), and [IAuthProvider](IAuthProvider.md).\n";

    let all = analyze_project(
        &[
            ("service.py", python_content),
            ("auth.service.ts", typescript_content),
            ("User.md", markdown_content),
        ],
    );

    let link_analyzer = LinkAnalyzer::new();
    let stats = link_analyzer.analyze(all.classes, all.links);

    let (hub, count) = stats.most_linked_class.clone().expect("a hub is expected");
    assert_eq!(hub, "User");
    let user_incoming = stats.count_for("User").unwrap().incoming_links;
    assert_eq!(count, user_incoming);
    for entry in &stats.class_link_counts {
        assert!(entry.1.incoming_links <= user_incoming);
    }
}

#[test]
fn test_merge_unions_declarations_and_concatenates_links() {
    let analyzer = UnifiedAnalyzer::new();
    let mut all = AnalysisResult::new();
    all.merge(analyzer.analyze_file("# Shared\n[a](Other.md)\n", "one.md"));
    all.merge(analyzer.analyze_file("# Shared\n# Second\n[b](Other.md)\n", "two.md"));
    // the shared declaration appears once; both files' links are kept
    assert_eq!(all.classes.len(), 2);
    assert!(all.classes.contains("Shared"));
    assert!(all.classes.contains("Second"));
    assert_eq!(all.links.len(), 2);
}

#[test]
fn test_merge_is_associative() {
    let analyzer = UnifiedAnalyzer::new();
    let files = [
        ("a.md", "# Alpha\n[b](Beta.md)\n"),
        ("b.md", "# Beta\n# Alpha\n"),
        ("c.md", "# Gamma\n[a](Alpha.md)\n"),
    ];
    // left grouping: (a + b) + c
    let mut left = AnalysisResult::new();
    left.merge(analyzer.analyze_file(files[0].1, files[0].0));
    left.merge(analyzer.analyze_file(files[1].1, files[1].0));
    left.merge(analyzer.analyze_file(files[2].1, files[2].0));
    // right grouping: a + (b + c)
    let mut right_tail = analyzer.analyze_file(files[1].1, files[1].0);
    right_tail.merge(analyzer.analyze_file(files[2].1, files[2].0));
    let mut right = analyzer.analyze_file(files[0].1, files[0].0);
    right.merge(right_tail);

    assert_eq!(left.classes.len(), right.classes.len());
    for name in ["Alpha", "Beta", "Gamma"] {
        assert!(left.classes.contains(name) && right.classes.contains(name));
    }
    let pairs = |r: &AnalysisResult| -> Vec<(String, String)> {
        r.links.iter().map(|l| (l.from_class.clone(), l.to_class.clone())).collect()
    };
    assert_eq!(pairs(&left), pairs(&right));
}
