use gl_renderer::support::{
    hex_listing, BufferSource, Gl, GlCommand, ModelCounts, UniformName, ARRAY_BUFFER,
    COLOR_BUFFER_BIT, DYNAMIC_DRAW, ELEMENT_ARRAY_BUFFER, FALSE, FLOAT, TRIANGLES, UNSIGNED_INT,
};

fn gl() -> Gl<()> {
    // vertex buffer 1, element buffer 2, vertex array 3, program 4
    Gl::new((), 1, 2, 3, 4)
}

fn draw_part(vertex_bytes: isize, index_bytes: isize, index_count: i32, model: usize) -> Vec<GlCommand> {
    vec![
        GlCommand::BindBuffer(ARRAY_BUFFER, 1),
        GlCommand::BufferData(ARRAY_BUFFER, vertex_bytes, BufferSource::Vertices(model), DYNAMIC_DRAW),
        GlCommand::BindBuffer(ELEMENT_ARRAY_BUFFER, 2),
        GlCommand::BufferData(ELEMENT_ARRAY_BUFFER, index_bytes, BufferSource::Indices(model), DYNAMIC_DRAW),
        GlCommand::VertexAttribPointer(0, 3, FLOAT, FALSE, 12, 0),
        GlCommand::EnableVertexAttribArray(0),
        GlCommand::DrawElements(TRIANGLES, index_count, UNSIGNED_INT, 0),
        GlCommand::BindBuffer(ARRAY_BUFFER, 0),
        GlCommand::BindVertexArray(0),
    ]
}

#[test]
fn gl_constants_match_the_gl_bindings() {
    assert_eq!(COLOR_BUFFER_BIT, gl::COLOR_BUFFER_BIT);
    assert_eq!(ARRAY_BUFFER, gl::ARRAY_BUFFER);
    assert_eq!(ELEMENT_ARRAY_BUFFER, gl::ELEMENT_ARRAY_BUFFER);
    assert_eq!(DYNAMIC_DRAW, gl::DYNAMIC_DRAW);
    assert_eq!(FLOAT, gl::FLOAT);
    assert_eq!(UNSIGNED_INT, gl::UNSIGNED_INT);
    assert_eq!(TRIANGLES, gl::TRIANGLES);
    assert_eq!(FALSE, gl::FALSE);
}

#[test]
fn draw_frame_of_the_square() {
    // The square drawn by the window: four vertices of three floats, six indices.
    let cmds = gl().draw_frame(12, 6);
    let mut expected = vec![
        GlCommand::ClearColor,
        GlCommand::Clear(COLOR_BUFFER_BIT),
        GlCommand::UseProgram(4),
        GlCommand::BindVertexArray(3),
    ];
    expected.extend(draw_part(48, 24, 6, 0));
    expected.push(GlCommand::GetError);
    assert_eq!(cmds, expected);
}

#[test]
fn draw_frame_of_nothing() {
    let cmds = gl().draw_frame(0, 0);
    assert_eq!(cmds.len(), 14);
    assert_eq!(cmds[5], GlCommand::BufferData(ARRAY_BUFFER, 0, BufferSource::Vertices(0), DYNAMIC_DRAW));
    assert_eq!(cmds[10], GlCommand::DrawElements(TRIANGLES, 0, UNSIGNED_INT, 0));
}

#[test]
fn draw_frame_count_is_cast_as_the_gl_takes_it() {
    let cmds = gl().draw_frame(0, (1usize << 31) + 5);
    assert_eq!(cmds[10], GlCommand::DrawElements(TRIANGLES, i32::MIN + 5, UNSIGNED_INT, 0));
}

#[test]
fn draw_model_sets_the_matrices_then_draws() {
    let cmds = gl().draw_model(&ModelCounts { vertex_count: 4, index_count: 6 });
    let mut expected = vec![
        GlCommand::UniformIdentity(4, UniformName::Model),
        GlCommand::UniformIdentity(4, UniformName::View),
        GlCommand::UniformIdentity(4, UniformName::PositionMat),
        GlCommand::GetError,
        GlCommand::BindVertexArray(3),
    ];
    expected.extend(draw_part(48, 24, 6, 0));
    assert_eq!(cmds, expected);
}

#[test]
fn draw_models_draws_each_in_order() {
    let models = vec![
        ModelCounts { vertex_count: 4, index_count: 6 },
        ModelCounts { vertex_count: 3, index_count: 3 },
    ];
    let g = gl();
    let cmds = g.draw_models(&models);
    let mut expected = vec![
        GlCommand::ClearColor,
        GlCommand::Clear(COLOR_BUFFER_BIT),
        GlCommand::UseProgram(4),
        GlCommand::ListActiveUniforms(4),
        GlCommand::GetError,
    ];
    expected.extend(g.draw_model(&models[0]));
    let second = g.draw_model(&models[1]);
    expected.extend(second[..5].iter().copied());
    expected.extend(draw_part(36, 12, 3, 1));
    assert_eq!(cmds, expected);
}

#[test]
fn draw_models_of_no_model() {
    let cmds = gl().draw_models(&vec![]);
    assert_eq!(cmds.len(), 5);
}

#[test]
fn hex_listing_skips_zero_bytes() {
    assert_eq!(hex_listing(&[0x6d, 0, 0x6f, 0x0f, 0, 0xff, 0x10]), "0x6d, 0x6f, 0xf, 0xff, 0x10, ");
    assert_eq!(hex_listing(&[0, 0, 0]), "");
    assert_eq!(hex_listing(&[]), "");
}

#[test]
fn hex_listing_matches_the_format_macro() {
    let bytes: Vec<u8> = (0..=255u8).collect();
    let expected: String = bytes
        .iter()
        .filter(|x| **x != 0)
        .map(|x| format!("{:#x}, ", x))
        .collect();
    assert_eq!(hex_listing(&bytes), expected);
}
