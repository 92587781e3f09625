use wavefront_obj::mtl::{parse, Color, ErrorKind, IlluminationModel, Material, MaterialSet, Parser};

/// A color with its components read as numbers.
#[derive(Clone, Copy, Debug, PartialEq)]
struct ExpColor {
    r: f64,
    g: f64,
    b: f64,
}

/// A material with its colors and scalars read as numbers.
#[derive(Clone, Debug, PartialEq)]
struct ExpMaterial {
    name: String,
    color_ambient: ExpColor,
    color_diffuse: ExpColor,
    color_specular: ExpColor,
    color_emissive: ExpColor,
    specular_exponent: f64,
    dissolve: f64,
    optical_density: Option<f64>,
    illumination_model: IlluminationModel,
    map_ambient: Option<String>,
    map_diffuse: Option<String>,
    map_specular: Option<String>,
    map_emissive: Option<String>,
    map_specular_exponent: Option<String>,
    map_bump: Option<String>,
    map_displacement: Option<String>,
    map_dissolve: Option<String>,
    map_decal: Option<String>,
}

#[derive(Clone, Debug, PartialEq)]
struct ExpMaterialSet {
    materials: Vec<ExpMaterial>,
}

fn num(s: &str) -> f64 {
    s.parse::<f64>().unwrap()
}

fn exp_color(c: &Color) -> ExpColor {
    ExpColor { r: num(&c.r), g: num(&c.g), b: num(&c.b) }
}

fn exp_material(m: &Material) -> ExpMaterial {
    ExpMaterial {
        name: m.name.clone(),
        color_ambient: exp_color(&m.color_ambient),
        color_diffuse: exp_color(&m.color_diffuse),
        color_specular: exp_color(&m.color_specular),
        color_emissive: exp_color(&m.color_emissive),
        specular_exponent: num(&m.specular_exponent),
        dissolve: num(&m.dissolve),
        optical_density: m.optical_density.as_ref().map(|s| num(s)),
        illumination_model: m.illumination_model,
        map_ambient: m.map_ambient.clone(),
        map_diffuse: m.map_diffuse.clone(),
        map_specular: m.map_specular.clone(),
        map_emissive: m.map_emissive.clone(),
        map_specular_exponent: m.map_specular_exponent.clone(),
        map_bump: m.map_bump.clone(),
        map_displacement: m.map_displacement.clone(),
        map_dissolve: m.map_dissolve.clone(),
        map_decal: m.map_decal.clone(),
    }
}

fn exp_set(s: &MaterialSet) -> ExpMaterialSet {
    ExpMaterialSet { materials: s.materials.iter().map(exp_material).collect() }
}

#[test]
fn mtl_test_parse_f64() {
    let mut parser = Parser::new("-1.929448");
    assert_eq!(parser.parse_f64().map(|s| num(&s)), Ok(-1.929448));
}

#[test]
fn mtl_test_parse_usize() {
    let mut parser = Parser::new("    763   ");
    assert_eq!(parser.parse_usize(), Ok(763));
}

#[test]
fn test_parse_color() {
    let mut parser = Parser::new("    0.1345345 0.63453 0.982430   ");
    assert_eq!(parser.parse_color().map(|c| exp_color(&c)), Ok(ExpColor { r: 0.1345345, g: 0.63453, b: 0.982430 }));
}

#[test]
fn test_parse_ambient_component() {
    let mut parser = Parser::new("Ka 0.1345345 0.63453 0.982430");
    let expected = Ok(ExpColor { r: 0.1345345, g: 0.63453, b: 0.982430 });
    let result = parser.parse_ambient_component().map(|c| exp_color(&c));

    assert_eq!(result, expected);      
}

#[test]
fn test_parse_diffuse_component() {
    let mut parser = Parser::new("Kd 0.1345345 0.63453 0.982430");
    let expected = Ok(ExpColor { r: 0.1345345, g: 0.63453, b: 0.982430 });
    let result = parser.parse_diffuse_component().map(|c| exp_color(&c));

    assert_eq!(result, expected);  
}

#[test]
fn test_parse_specular_component() {
    let mut parser = Parser::new("Ks 0.1345345 0.63453 0.982430");
    let expected = Ok(ExpColor { r: 0.1345345, g: 0.63453, b: 0.982430 });
    let result = parser.parse_specular_component().map(|c| exp_color(&c));

    assert_eq!(result, expected);  
}

#[test]
fn test_parse_emissive_component() {
    let mut parser = Parser::new("Ke 0.1345345 0.63453 0.982430");
    let expected = Ok(ExpColor { r: 0.1345345, g: 0.63453, b: 0.982430 });
    let result = parser.parse_emissive_component().map(|c| exp_color(&c));

    assert_eq!(result, expected); 
}

#[test]
fn test_parse_dissolve_component() {
    let mut parser = Parser::new("d 0.24325634");
    let expected = Ok(0.24325634);
    let result = parser.parse_dissolve_component().map(|s| num(&s));

    assert_eq!(result, expected); 
}

#[test]
fn test_parse_specular_exponent() {
    let mut parser = Parser::new("Ns 3.24325634");
    let expected = Ok(3.24325634);
    let result = parser.parse_specular_exponent().map(|s| num(&s));

    assert_eq!(result, expected); 
}

#[test]
fn test_parse_optical_density() {
    let mut parser = Parser::new("Ni 1.24325634");
    let expected = Ok(1.24325634);
    let result = parser.parse_optical_density().map(|s| num(&s));

    assert_eq!(result, expected); 
}

#[test]
fn test_parse_map_ambient() {
    let mut parser = Parser::new("map_Ka ambient.png");
    let expected = Ok(Some(String::from("ambient.png")));
    let result = parser.parse_map_ambient();

    assert_eq!(result, expected);
}

#[test]
fn test_parse_map_diffuse() {
    let mut parser = Parser::new("map_Kd diffuse.png");
    let expected = Ok(Some(String::from("diffuse.png")));
    let result = parser.parse_map_diffuse();

    assert_eq!(result, expected);
}

#[test]
fn test_parse_map_specular() {
    let mut parser = Parser::new("map_Ks specular.png");
    let expected = Ok(Some(String::from("specular.png")));
    let result = parser.parse_map_specular();

    assert_eq!(result, expected);
}

#[test]
fn test_parse_map_emissive() {
    let mut parser = Parser::new("map_Ke emissive.png");
    let expected = Ok(Some(String::from("emissive.png")));
    let result = parser.parse_map_emissive();

    assert_eq!(result, expected);
}

#[test]
fn test_parse_map_bump1() {
    let mut parser = Parser::new("map_Bump normal.png");
    let expected = Ok(Some(String::from("normal.png")));
    let result = parser.parse_map_bump();

    assert_eq!(result, expected);
}

#[test]
fn test_parse_map_bump2() {
    let mut parser = Parser::new("bump normal.png");
    let expected = Ok(Some(String::from("normal.png")));
    let result = parser.parse_map_bump();

    assert_eq!(result, expected);
}

#[test]
fn test_parse_map_displacement() {
    let mut parser = Parser::new("disp roughness.png");
    let expected = Ok(Some(String::from("roughness.png")));
    let result = parser.parse_map_displacement();

    assert_eq!(result, expected);
}

#[test]
fn test_parse_map_dissolve() {
    let mut parser = Parser::new("map_d alpha.png");
    let expected = Ok(Some(String::from("alpha.png")));
    let result = parser.parse_map_dissolve();

    assert_eq!(result, expected);
}

#[test]
fn test_parse_map_decal() {
    let mut parser = Parser::new("decal decal.png");
    let expected = Ok(Some(String::from("decal.png")));
    let result = parser.parse_map_decal();

    assert_eq!(result, expected);
}

#[test]
fn test_parse_illumination_model0() {
    let mut parser = Parser::new("illum 0");
    let expected = Ok(IlluminationModel::Ambient);
    let result = parser.parse_illumination_model();

    assert_eq!(result, expected);
}

#[test]
fn test_parse_illumination_model1() {
    let mut parser = Parser::new("illum 1");
    let expected = Ok(IlluminationModel::AmbientDiffuse);
    let result = parser.parse_illumination_model();

    assert_eq!(result, expected);
}

#[test]
fn test_parse_illumination_model2() {
    let mut parser = Parser::new("illum 2");
    let expected = Ok(IlluminationModel::AmbientDiffuseSpecular);
    let result = parser.parse_illumination_model();

    assert_eq!(result, expected);
}

#[test]
fn test_parse_illumination_model3() {
    let mut parser = Parser::new("illum 3");
    let expected_kind = ErrorKind::UnknownIlluminationModel;
    let result = parser.parse_illumination_model();
    assert!(result.is_err());

    let result_kind = result.unwrap_err().kind();
    assert_eq!(result_kind, expected_kind);
}

#[test]
fn test_parse_newmtl1() {
    let mut parser = Parser::new("newmtl material_name");
    let expected = Ok(String::from("material_name"));
    let result = parser.parse_newmtl();

    assert_eq!(result, expected);
}

#[test]
fn test_parse_newmtl2() {
    let mut parser = Parser::new("newmtl    ");
    let result = parser.parse_newmtl();

    assert!(result.is_err());
}

#[test]
fn test_parse() {
    let mtl_file = r"
    # Blender MTL File: 'None'      \
    # Material Count: 1             \
                                    \
    newmtl Scene_-_Root             \
    Ns 225.000000                   \
    Ka 1.000000 1.000000 1.000000   \
    Kd 0.800000 0.800000 0.800000   \
    Ks 0.500000 0.500000 0.500000   \
    Ke 0.0 0.0 0.0                  \
    Ni 1.450000                     \
    d 1.000000                      \
    illum 2                         \
    map_Kd diffuse.jpg              \
    map_Bump normal.png             \
    map_Ks specular.jpg             \
    disp displacement.jpg           \
    ";
    let expected = Ok(ExpMaterialSet {
        materials: vec![
            ExpMaterial {
                name: String::from("Scene_-_Root"),
                color_ambient: ExpColor { r: 1_f64, g: 1_f64, b: 1_f64 },
                color_diffuse: ExpColor { r: 0.8_f64, g: 0.8_f64, b: 0.8_f64 },
                color_specular: ExpColor { r: 0.5_f64, g: 0.5_f64, b: 0.5_f64 },
                color_emissive: ExpColor { r: 0_f64, g: 0_f64, b: 0_f64 },
                specular_exponent: 225_f64,
                dissolve: 1_f64,
                optical_density: Some(1.45_f64),
                illumination_model: IlluminationModel::AmbientDiffuseSpecular,
                map_ambient: None,
                map_diffuse: Some(String::from("diffuse.jpg")),
                map_specular: Some(String::from("specular.jpg")),
                map_emissive: None,
                map_specular_exponent: None,
                map_bump: Some(String::from("normal.png")),
                map_displacement: Some(String::from("displacement.jpg")),
                map_dissolve: None,
                map_decal: None,
            },
        ],
    });
    let result = parse(mtl_file).map(|s| exp_set(&s));

    assert_eq!(result, expected);
}

#[test]
fn test_parse_multiple_materials() {
    let mtl_file = r"
    # Blender MTL File: 'None'                                             \
    # Material Count: 1                                                    \
                                                                           \
    newmtl Scene_-_Root                                                    \
    Ns 225.000000                                                          \
    Ka 1.000000 1.000000 1.000000                                          \
    Kd 0.800000 0.800000 0.800000                                          \
    Ks 0.500000 0.500000 0.500000                                          \
    Ke 0.0 0.0 0.0                                                         \
    Ni 1.450000                                                            \
    d 1.000000                                                             \
    illum 2                                                                \
    map_Kd diffuse.jpg                                                     \
    map_Bump normal.png                                                    \
    map_Ks specular.jpg                                                    \
    disp displacement.jpg                                                  \
    decal decal.jpg                                                        \
                                                                           \        
    # This is a bright green material.  When applied to an object, it will \ 
    # remain bright green regardless of any lighting in the scene.         \
    newmtl neon_green                                                      \
    Kd 0.0000 1.0000 0.0000                                                \
    illum 0                                                                \
                                                                           \
    # This is a flat green material.                                       \
    newmtl flat_green                                                      \
    Ka 0.0000 1.0000 0.0000                                                \
    Kd 0.0000 1.0000 0.0000                                                \
    illum 1                                                                \
                                                                           \
    # This is a flat green, partially dissolved material.                  \
    newmtl diss_green                                                      \
    Ka 0.0000 1.0000 0.0000                                                \
    Kd 0.0000 1.0000 0.0000                                                \
    d 0.8000                                                               \
    illum 1                                                                \
                                                                           \
    # This is a shiny green material.  When applied to an object, it       \
    # shows a white specular highlight.                                    \
    newmtl shiny_green                                                     \
    Ka 0.0000 1.0000 0.0000                                                \
    Kd 0.0000 1.0000 0.0000                                                \
    Ks 1.0000 1.0000 1.0000                                                \
    Ns 200.0000                                                            \
    illum 1                                                                \
    ";
    let expected = ExpMaterialSet {
        materials: vec![
            ExpMaterial {
                name: String::from("Scene_-_Root"),
                color_ambient: ExpColor { r: 1_f64, g: 1_f64, b: 1_f64 },
                color_diffuse: ExpColor { r: 0.8_f64, g: 0.8_f64, b: 0.8_f64 },
                color_specular: ExpColor { r: 0.5_f64, g: 0.5_f64, b: 0.5_f64 },
                color_emissive: ExpColor { r: 0_f64, g: 0_f64, b: 0_f64 },
                specular_exponent: 225_f64,
                dissolve: 1_f64,
                optical_density: Some(1.45_f64),
                illumination_model: IlluminationModel::AmbientDiffuseSpecular,
                map_ambient: None,
                map_diffuse: Some(String::from("diffuse.jpg")),
                map_specular: Some(String::from("specular.jpg")),
                map_emissive: None,
                map_specular_exponent: None,
                map_bump: Some(String::from("normal.png")),
                map_displacement: Some(String::from("displacement.jpg")),
                map_dissolve: None,
                map_decal: Some(String::from("decal.jpg")),
            },
            ExpMaterial {
                name: String::from("neon_green"),
                color_ambient: ExpColor { r: 0.0, g: 0.0, b: 0.0 },
                color_diffuse: ExpColor { r: 0_f64, g: 1_f64, b: 0_f64 },
                color_specular: ExpColor { r: 0.0, g: 0.0, b: 0.0 },
                color_emissive: ExpColor { r: 0.0, g: 0.0, b: 0.0 },
                specular_exponent: 0_f64,
                dissolve: 1_f64,
                optical_density: None,
                illumination_model: IlluminationModel::Ambient,
                map_ambient: None,
                map_diffuse: None,
                map_specular: None,
                map_emissive: None,
                map_specular_exponent: None,
                map_bump: None,
                map_displacement: None,
                map_dissolve: None,
                map_decal: None,
            },
            ExpMaterial {
                name: String::from("flat_green"),
                color_ambient: ExpColor { r: 0_f64, g: 1_f64, b: 0_f64 },
                color_diffuse: ExpColor { r: 0_f64, g: 1_f64, b: 0_f64 },
                color_specular: ExpColor { r: 0.0, g: 0.0, b: 0.0 },
                color_emissive: ExpColor { r: 0.0, g: 0.0, b: 0.0 },
                specular_exponent: 0_f64,
                dissolve: 1_f64,
                optical_density: None,
                illumination_model: IlluminationModel::AmbientDiffuse,
                map_ambient: None,
                map_diffuse: None,
                map_specular: None,
                map_emissive: None,
                map_specular_exponent: None,
                map_bump: None,
                map_displacement: None,
                map_dissolve: None,
                map_decal: None,
            },
            ExpMaterial {
                name: String::from("diss_green"),
                color_ambient: ExpColor { r: 0_f64, g: 1_f64, b: 0_f64 },
                color_diffuse: ExpColor { r: 0_f64, g: 1_f64, b: 0_f64 },
                color_specular: ExpColor { r: 0.0, g: 0.0, b: 0.0 },
                color_emissive: ExpColor { r: 0.0, g: 0.0, b: 0.0 },
                specular_exponent: 0_f64,
                dissolve: 0.8_f64,
                optical_density: None,
                illumination_model: IlluminationModel::AmbientDiffuse,
                map_ambient: None,
                map_diffuse: None,
                map_specular: None,
                map_emissive: None,
                map_specular_exponent: None,
                map_bump: None,
                map_displacement: None,
                map_dissolve: None,
                map_decal: None,
            },
            ExpMaterial {
                name: String::from("shiny_green"),
                color_ambient: ExpColor { r: 0_f64, g: 1_f64, b: 0_f64 },
                color_diffuse: ExpColor { r: 0_f64, g: 1_f64, b: 0_f64 },
                color_specular: ExpColor { r: 1_f64, g: 1_f64, b: 1_f64 },
                color_emissive: ExpColor { r: 0.0, g: 0.0, b: 0.0 },
                specular_exponent: 200_f64,
                dissolve: 1_f64,
                optical_density: None,
                illumination_model: IlluminationModel::AmbientDiffuse,
                map_ambient: None,
                map_diffuse: None,
                map_specular: None,
                map_emissive: None,
                map_specular_exponent: None,
                map_bump: None,
                map_displacement: None,
                map_dissolve: None,
                map_decal: None,
            },
        ],
    };
    let result = parse(mtl_file).map(|s| exp_set(&s));
    assert!(result.is_ok());
    let result = result.unwrap();

    for (result_i, expected_i) 
        in result.materials.iter().zip(expected.materials.iter()) {
        assert_eq!(result_i, expected_i);
    }
}

// Tests of the library's own.

#[test]
fn mtl_defaults_and_errors() {
    let set = parse("newmtl plain\n").unwrap();
    let m = &set.materials[0];
    assert_eq!(m.name, "plain");
    assert_eq!(exp_color(&m.color_ambient), ExpColor { r: 0.0, g: 0.0, b: 0.0 });
    assert_eq!(num(&m.dissolve), 1.0);
    assert_eq!(num(&m.specular_exponent), 0.0);
    assert_eq!(m.illumination_model, IlluminationModel::AmbientDiffuseSpecular);
    assert_eq!(m.optical_density, None);

    let err = parse("Ka 1 1 1\n").unwrap_err();
    assert_eq!(err.kind(), ErrorKind::ExpectedEndOfInput);
    assert_eq!(err.message(), "Expected end of input but got `Ka`.");
    let err = parse("newmtl a\nKa 1 x 1\n").unwrap_err();
    assert_eq!(err.kind(), ErrorKind::ExpectedFloat);
    assert_eq!(err.message(), "Expected floating point number but got x");
    assert_eq!(err.line_number(), 2);
    let err = parse("newmtl a\nfoo\n").unwrap_err();
    assert_eq!(err.kind(), ErrorKind::ErrorParsingMaterial);
    assert_eq!(err.message(), "Could not parse the token `foo`.");
    let err = parse("newmtl a\nillum 7\n").unwrap_err();
    assert_eq!(err.kind(), ErrorKind::UnknownIlluminationModel);
    assert_eq!(err.message(), "Unknown illumination model: 7.");
    let err = parse("newmtl a\nillum two\n").unwrap_err();
    assert_eq!(err.kind(), ErrorKind::ExpectedInteger);
    let err = parse("newmtl a\nmap_Kd").unwrap_err();
    assert_eq!(err.kind(), ErrorKind::EndOfFile);
    assert_eq!(err.message(), "Expected texture map name but got end of input.");
    let err = parse("newmtl").unwrap_err();
    assert_eq!(err.kind(), ErrorKind::EndOfFile);
    let mut parser = Parser::new("Kd 1 1 1");
    let err = parser.expect_tag("Ka").unwrap_err();
    assert_eq!(err.kind(), ErrorKind::ExpectedTagStatement);
    assert_eq!(err.message(), "Expected statement Ka but got statement Kd");
    let mut parser = Parser::new("Ka 1 1 1");
    assert_eq!(parser.parse_map_ambient(), Ok(None));
}

#[test]
fn mtl_later_statements_override_earlier_ones() {
    let set = parse("newmtl a\nKd 1 0 0\nKd 0 1 0\nillum 0\nillum 1\n").unwrap();
    assert_eq!(exp_color(&set.materials[0].color_diffuse), ExpColor { r: 0.0, g: 1.0, b: 0.0 });
    assert_eq!(set.materials[0].illumination_model, IlluminationModel::AmbientDiffuse);
}
