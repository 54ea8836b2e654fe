use gloam::parse::ctype::TypeRef;

fn parse(s: &str) -> TypeRef {
    TypeRef::parse(s).unwrap()
}

#[test]
fn plain_base() {
    let t = parse("GLenum");
    assert_eq!(t.base, "GLenum");
    assert!(!t.base_const && t.pointers.is_empty() && t.array.is_empty());
    assert_eq!(t.decl_name, None);
}

#[test]
fn void_detection() {
    assert!(parse("void").is_void());
    assert!(!parse("void *").is_void());
    assert!(!parse("GLenum").is_void());
}

#[test]
fn multi_word_builtin_base() {
    assert_eq!(parse("unsigned int").base, "unsigned int");
    assert_eq!(parse("unsigned long").base, "unsigned long");
    let t = parse("unsigned int mask");
    assert_eq!(t.base, "unsigned int");
    assert_eq!(t.decl_name.as_deref(), Some("mask"));
}

#[test]
fn const_binds_to_base_before_any_pointer() {
    for s in ["const GLubyte *", "GLubyte const *"] {
        let t = parse(s);
        assert!(t.base_const, "{s}");
        assert_eq!(t.pointers, vec![false], "{s}");
    }
}

#[test]
fn const_after_star_binds_to_that_pointer() {
    let t = parse("const GLchar *const*");
    assert!(t.base_const);
    assert_eq!(t.pointers, vec![true, false]);
}

#[test]
fn double_pointer_inner_const_only() {
    let t = parse("const GLcharARB **");
    assert!(t.base_const);
    assert_eq!(t.pointers, vec![false, false]);
}

#[test]
fn struct_keyword() {
    let t = parse("struct AHardwareBuffer*");
    assert!(t.struct_kw);
    assert_eq!(t.base, "AHardwareBuffer");
    assert_eq!(t.pointers, vec![false]);
    let t = parse("const struct AHardwareBuffer *");
    assert!(t.struct_kw && t.base_const);
}

#[test]
fn array_param_with_embedded_name() {
    let t = parse("float blendConstants[4]");
    assert_eq!(t.base, "float");
    assert_eq!(t.decl_name.as_deref(), Some("blendConstants"));
    assert_eq!(t.array, vec!["4"]);
}

#[test]
fn array_dims_identifier_and_multi() {
    let t = parse("uint8_t deviceUUID[VK_UUID_SIZE]");
    assert_eq!(t.array, vec!["VK_UUID_SIZE"]);
    let t = parse("float matrix[3][4]");
    assert_eq!(t.array, vec!["3", "4"]);
}

#[test]
fn bitfield_member() {
    let t = parse("uint32_t instanceCustomIndex:24");
    assert_eq!(t.base, "uint32_t");
    assert_eq!(t.decl_name.as_deref(), Some("instanceCustomIndex"));
    assert_eq!(t.bitfield, Some(24));
    let t = parse("VkGeometryInstanceFlagsKHR flags : 8");
    assert_eq!(t.bitfield, Some(8));
}

#[test]
fn no_space_before_star() {
    let t = parse("const VkDeviceCreateInfo*");
    assert!(t.base_const);
    assert_eq!(t.base, "VkDeviceCreateInfo");
    assert_eq!(t.pointers, vec![false]);
}

#[test]
fn rejects_outside_grammar() {
    assert!(TypeRef::parse("").is_err());
    assert!(TypeRef::parse("*").is_err());
    assert!(TypeRef::parse("const").is_err());
    assert!(TypeRef::parse("int (*fp)(void)").is_err());
    assert!(TypeRef::parse("int a b").is_err());
    assert!(TypeRef::parse("int x[3").is_err());
    assert!(TypeRef::parse("int x:y").is_err());
    assert!(TypeRef::parse("int &r").is_err());
    assert!(TypeRef::parse("GLenum struct x").is_err());
}

#[test]
fn pointer_position_constraints() {
    assert!(TypeRef::parse("float blendConstants[4] *").is_err());
    assert!(TypeRef::parse("float name *").is_err());
}

// ---- error messages ----

#[test]
fn declarator_error_messages_quote_the_input() {
    let e = TypeRef::parse("int a b").unwrap_err().message();
    assert_eq!(e, "unexpected identifier 'b' after declarator name in C declarator 'int a b'");
    let e = TypeRef::parse("int x[3").unwrap_err().message();
    assert_eq!(e, "unterminated '[' in C declarator 'int x[3'");
    let e = TypeRef::parse("int &r").unwrap_err().message();
    assert_eq!(e, "unexpected character '&' in C declarator 'int &r'");
    let e = TypeRef::parse("").unwrap_err().message();
    assert_eq!(e, "no base type in C declarator ''");
}

#[test]
fn bitfield_too_wide_is_rejected() {
    assert!(TypeRef::parse("uint32_t x:99999999999").is_err());
}

#[test]
fn default_is_empty() {
    let t = TypeRef::default();
    assert!(t.base.is_empty() && t.pointers.is_empty() && t.bitfield.is_none());
}

#[test]
fn declarator_counts_follow_the_text() {
    let t = TypeRef::parse("const char * const * names [4] [ N ]").unwrap();
    assert_eq!(t.pointers.len(), 2);
    assert_eq!(t.array.len(), 2);
    assert!(t.bitfield.is_none());
    let t = TypeRef::parse("uint32_t flags : 8").unwrap();
    assert_eq!(t.pointers.len(), 0);
    assert_eq!(t.bitfield, Some(8));
    let e = TypeRef::parse("int x y").unwrap_err();
    assert!(e.message().ends_with(" in C declarator 'int x y'"));
}

#[test]
fn declarator_base_is_its_words_single_spaced() {
    let t = TypeRef::parse("const  unsigned \t long   int * p").unwrap();
    assert_eq!(t.base, "unsigned long int");
    let t = TypeRef::parse("struct   wl_display *d").unwrap();
    assert_eq!(t.base, "wl_display");
}
