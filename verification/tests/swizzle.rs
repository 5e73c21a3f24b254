use lunar_ecs::swizzle::{shape_error, swizzle_selections, swizzle_source, ItemShape};

#[test]
fn selection_counts() {
    assert_eq!(swizzle_selections(2).len(), 4 + 8 + 16);
    assert_eq!(swizzle_selections(3).len(), 9 + 27 + 81);
    let s = swizzle_selections(2);
    assert_eq!(s[0], vec![0, 0]);
    assert_eq!(s[1], vec![0, 1]);
    assert_eq!(s[2], vec![1, 0]);
    assert_eq!(s[4], vec![0, 0, 0]);
    assert_eq!(s[27], vec![1, 1, 1, 1]);
}

#[test]
fn source_of_a_two_field_struct() {
    let fields = vec!["x".to_string(), "y".to_string()];
    let (decl, imp) = swizzle_source("Vec2", &fields);
    assert!(decl.starts_with("///Swizzle functions for Vec2\npub trait Vec2Swizzles {\nfn xx(self) -> Self;\nfn xy(self) -> Self;\n"));
    assert!(decl.contains("fn yxy(self) -> Vec3;\n"));
    assert!(decl.contains("fn yyyx(self) -> Vec4;\n"));
    assert!(decl.ends_with("fn yyyy(self) -> Vec4;\n}"));
    assert!(imp.starts_with("impl Vec2Swizzles for Vec2 {fn xx(self) -> Self { Self {x:self.x, y:self.x } }"));
    assert!(imp.contains("fn xyx(self) -> Vec3 { Vec3 {x:self.x, y:self.y,z:self.x } }"));
    assert!(imp.contains("fn yxxy(self) -> Vec4 { Vec4 {x:self.y, y:self.x,z:self.x, w:self.y } }"));
    assert!(imp.ends_with("}}"));
    assert_eq!(decl.matches("fn ").count(), 28);
}

#[test]
fn four_field_struct_returns_self_for_four() {
    let fields = vec!["x".to_string(), "y".to_string(), "z".to_string(), "w".to_string()];
    let (decl, imp) = swizzle_source("Vec4", &fields);
    assert!(decl.contains("fn wzyx(self) -> Self;\n"));
    assert!(decl.contains("fn xy(self) -> Vec2;\n"));
    assert!(imp.contains("fn wzyx(self) -> Self { Self {x:self.w, y:self.z,z:self.y, w:self.x } }"));
    assert_eq!(decl.matches("fn ").count(), 16 + 64 + 256);
}

#[test]
fn only_structs_with_named_fields_get_swizzles() {
    assert_eq!(shape_error(ItemShape::NamedStruct), None);
    assert_eq!(shape_error(ItemShape::TupleStruct), Some("compile_error!(\"Must have named fields\")"));
    assert_eq!(shape_error(ItemShape::UnitStruct), Some("compile_error!(\"Must have named fields\")"));
    assert_eq!(shape_error(ItemShape::Enum), Some("compile_error!(\"Must be a struct\")"));
    assert_eq!(shape_error(ItemShape::Union), Some("compile_error!(\"Must be a struct\")"));
}
