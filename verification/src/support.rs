//! What one frame asks of the GL, as a list of commands that the caller
//! issues in order, and the listing of uniform names the renderer prints.
use vstd::prelude::*;
use vstd::string::StringExecFns;

verus! {

/// `GL_COLOR_BUFFER_BIT`.
pub const COLOR_BUFFER_BIT: u32 = 0x4000;

/// `GL_ARRAY_BUFFER`.
pub const ARRAY_BUFFER: u32 = 0x8892;

/// `GL_ELEMENT_ARRAY_BUFFER`.
pub const ELEMENT_ARRAY_BUFFER: u32 = 0x8893;

/// `GL_DYNAMIC_DRAW`.
pub const DYNAMIC_DRAW: u32 = 0x88E8;

/// `GL_FLOAT`.
pub const FLOAT: u32 = 0x1406;

/// `GL_UNSIGNED_INT`.
pub const UNSIGNED_INT: u32 = 0x1405;

/// `GL_TRIANGLES`.
pub const TRIANGLES: u32 = 0x0004;

/// `GL_FALSE`.
pub const FALSE: u8 = 0;

/// Bytes in one `f32`.
pub const F32_BYTES: usize = 4;

/// Bytes in one `u32`.
pub const U32_BYTES: usize = 4;

/// Which of the caller's arrays a buffer upload takes its bytes from.
#[derive(Debug, Clone, Copy, PartialEq, Eq)]
pub enum BufferSource {
    /// The vertex coordinates of the model at this position, three `f32` per
    /// vertex.
    Vertices(usize),
    /// The triangle indices of the model at this position, one `u32` each.
    Indices(usize),
}

/// A `mat4` uniform of the shader program.
#[derive(Debug, Clone, Copy, PartialEq, Eq)]
pub enum UniformName {
    /// `model`
    Model,
    /// `view`
    View,
    /// `position_mat`
    PositionMat,
}

/// One GL call, with the arguments the renderer passes to it.
#[derive(Debug, Clone, Copy, PartialEq, Eq)]
pub enum GlCommand {
    /// `glClearColor` with the frame's colour, which the caller holds.
    ClearColor,
    /// `glClear(mask)`.
    Clear(u32),
    /// `glUseProgram(program)`.
    UseProgram(u32),
    /// `glBindVertexArray(array)`.
    BindVertexArray(u32),
    /// `glBindBuffer(target, buffer)`.
    BindBuffer(u32, u32),
    /// `glBufferData(target, size, data, usage)`, the data taken from the source.
    BufferData(u32, isize, BufferSource, u32),
    /// `glVertexAttribPointer(index, size, type, normalized, stride, offset)`.
    VertexAttribPointer(u32, i32, u32, u8, i32, usize),
    /// `glEnableVertexAttribArray(index)`.
    EnableVertexAttribArray(u32),
    /// `glDrawElements(mode, count, type, offset)`.
    DrawElements(u32, i32, u32, usize),
    /// `glGetError`, reporting a non-zero code.
    GetError,
    /// Looks up the uniform of the program by name and sets it to the
    /// identity matrix.
    UniformIdentity(u32, UniformName),
    /// Lists the program's active uniforms.
    ListActiveUniforms(u32),
}

/// How much a model gives the GL: its vertices (three `f32` each) and its
/// triangle indices.
#[derive(Debug, Clone, Copy, PartialEq, Eq)]
pub struct ModelCounts {
    pub vertex_count: usize,
    pub index_count: usize,
}

/// A model whose byte sizes fit in a `usize`.
pub open spec fn model_fits(m: ModelCounts) -> bool {
    &&& m.vertex_count * 3 * F32_BYTES <= usize::MAX
    &&& m.index_count * U32_BYTES <= usize::MAX
}

impl ModelCounts {
    /// Whether the byte sizes of the model fit in a `usize`.
    pub fn fits(&self) -> (b: bool)
        ensures
            b == model_fits(*self),
    {
        self.vertex_count <= usize::MAX / 12 && self.index_count <= usize::MAX / 4
    }
}

/// A loaded renderer: the GL function table `gl` and the names of the objects
/// it created.
pub struct Gl<B> {
    pub gl: B,
    vertex_buffer: u32,
    element_buffer_object: u32,
    vertex_attribute_array: u32,
    shader_program: u32,
}

/// The commands that upload vertex bytes and index bytes and draw the
/// indexed triangles.
pub open spec fn draw_commands(
    vertex_buffer: u32,
    element_buffer_object: u32,
    vertex_bytes: int,
    index_count: int,
    model: usize,
) -> Seq<GlCommand> {
    seq![
        GlCommand::BindBuffer(ARRAY_BUFFER, vertex_buffer),
        GlCommand::BufferData(ARRAY_BUFFER, vertex_bytes as isize, BufferSource::Vertices(model), DYNAMIC_DRAW),
        GlCommand::BindBuffer(ELEMENT_ARRAY_BUFFER, element_buffer_object),
        GlCommand::BufferData(
            ELEMENT_ARRAY_BUFFER,
            (index_count * U32_BYTES) as isize,
            BufferSource::Indices(model),
            DYNAMIC_DRAW,
        ),
        GlCommand::VertexAttribPointer(0, 3, FLOAT, FALSE, (3 * F32_BYTES) as i32, 0),
        GlCommand::EnableVertexAttribArray(0),
        GlCommand::DrawElements(TRIANGLES, index_count as i32, UNSIGNED_INT, 0),
        GlCommand::BindBuffer(ARRAY_BUFFER, 0),
        GlCommand::BindVertexArray(0),
    ]
}

/// The commands that draw model `m`, at position `model` of the frame: set
/// the program's three matrices, read the error flag, then upload and draw.
pub open spec fn model_commands(
    program: u32,
    vertex_array: u32,
    vertex_buffer: u32,
    element_buffer_object: u32,
    m: ModelCounts,
    model: usize,
) -> Seq<GlCommand> {
    seq![
        GlCommand::UniformIdentity(program, UniformName::Model),
        GlCommand::UniformIdentity(program, UniformName::View),
        GlCommand::UniformIdentity(program, UniformName::PositionMat),
        GlCommand::GetError,
        GlCommand::BindVertexArray(vertex_array),
    ] + draw_commands(
        vertex_buffer,
        element_buffer_object,
        m.vertex_count * 3 * F32_BYTES,
        m.index_count as int,
        model,
    )
}

/// The commands that draw the models one after the other, each at its
/// position.
pub open spec fn models_commands(
    program: u32,
    vertex_array: u32,
    vertex_buffer: u32,
    element_buffer_object: u32,
    models: Seq<ModelCounts>,
) -> Seq<GlCommand>
    decreases models.len(),
{
    if models.len() == 0 {
        Seq::empty()
    } else {
        models_commands(program, vertex_array, vertex_buffer, element_buffer_object, models.drop_last())
            + model_commands(
            program,
            vertex_array,
            vertex_buffer,
            element_buffer_object,
            models.last(),
            (models.len() - 1) as usize,
        )
    }
}

/// The upload-and-draw commands of model `model`: the vertex upload carries
/// `vertex_bytes` from that model's vertices; the index upload carries four
/// bytes per index from that model's indices, whatever the vertex bytes; and
/// the draw takes every index.
pub proof fn lemma_draw_commands(
    vertex_buffer: u32,
    element_buffer_object: u32,
    vertex_bytes: int,
    index_count: int,
    model: usize,
)
    ensures
        ({
            let c = draw_commands(vertex_buffer, element_buffer_object, vertex_bytes, index_count, model);
            &&& c.len() == 9
            &&& c[0] == GlCommand::BindBuffer(ARRAY_BUFFER, vertex_buffer)
            &&& c[1] == GlCommand::BufferData(
                ARRAY_BUFFER,
                vertex_bytes as isize,
                BufferSource::Vertices(model),
                DYNAMIC_DRAW,
            )
            &&& c[2] == GlCommand::BindBuffer(ELEMENT_ARRAY_BUFFER, element_buffer_object)
            &&& c[3] == GlCommand::BufferData(
                ELEMENT_ARRAY_BUFFER,
                (index_count * 4) as isize,
                BufferSource::Indices(model),
                DYNAMIC_DRAW,
            )
            &&& c[4] == GlCommand::VertexAttribPointer(0, 3, FLOAT, FALSE, 12, 0)
            &&& c[5] == GlCommand::EnableVertexAttribArray(0)
            &&& c[6] == GlCommand::DrawElements(TRIANGLES, index_count as i32, UNSIGNED_INT, 0)
            &&& c[7] == GlCommand::BindBuffer(ARRAY_BUFFER, 0)
            &&& c[8] == GlCommand::BindVertexArray(0)
        }),
{
}

/// The commands that draw model `m` at position `position`: the program's
/// three matrices, the error flag, the vertex array, then the upload of
/// `12` bytes per vertex and `4` bytes per index, both from that position, and
/// a draw of every index of `m`.
pub proof fn lemma_model_commands(
    program: u32,
    vertex_array: u32,
    vertex_buffer: u32,
    element_buffer_object: u32,
    m: ModelCounts,
    position: usize,
)
    ensures
        ({
            let c = model_commands(program, vertex_array, vertex_buffer, element_buffer_object, m, position);
            &&& c.len() == 14
            &&& c[0] == GlCommand::UniformIdentity(program, UniformName::Model)
            &&& c[1] == GlCommand::UniformIdentity(program, UniformName::View)
            &&& c[2] == GlCommand::UniformIdentity(program, UniformName::PositionMat)
            &&& c[3] == GlCommand::GetError
            &&& c[4] == GlCommand::BindVertexArray(vertex_array)
            &&& c[5] == GlCommand::BindBuffer(ARRAY_BUFFER, vertex_buffer)
            &&& c[6] == GlCommand::BufferData(
                ARRAY_BUFFER,
                (m.vertex_count * 12) as isize,
                BufferSource::Vertices(position),
                DYNAMIC_DRAW,
            )
            &&& c[7] == GlCommand::BindBuffer(ELEMENT_ARRAY_BUFFER, element_buffer_object)
            &&& c[8] == GlCommand::BufferData(
                ELEMENT_ARRAY_BUFFER,
                (m.index_count * 4) as isize,
                BufferSource::Indices(position),
                DYNAMIC_DRAW,
            )
            &&& c[9] == GlCommand::VertexAttribPointer(0, 3, FLOAT, FALSE, 12, 0)
            &&& c[10] == GlCommand::EnableVertexAttribArray(0)
            &&& c[11] == GlCommand::DrawElements(TRIANGLES, m.index_count as i32, UNSIGNED_INT, 0)
            &&& c[12] == GlCommand::BindBuffer(ARRAY_BUFFER, 0)
            &&& c[13] == GlCommand::BindVertexArray(0)
        }),
{
    lemma_draw_commands(
        vertex_buffer,
        element_buffer_object,
        m.vertex_count * 3 * F32_BYTES,
        m.index_count as int,
        position,
    );
}

/// Every model is drawn, in order, each from its own position: the commands
/// for `models` are fourteen per model, and the fourteen at `14 * k` draw
/// `models[k]` with the arrays at position `k`.
pub proof fn lemma_models_commands(
    program: u32,
    vertex_array: u32,
    vertex_buffer: u32,
    element_buffer_object: u32,
    models: Seq<ModelCounts>,
)
    ensures
        ({
            let c = models_commands(program, vertex_array, vertex_buffer, element_buffer_object, models);
            &&& c.len() == 14 * models.len()
            &&& forall|k: int, j: int|
                0 <= k < models.len() && 0 <= j < 14 ==> #[trigger] c[14 * k + j] == model_commands(
                    program,
                    vertex_array,
                    vertex_buffer,
                    element_buffer_object,
                    models[k],
                    k as usize,
                )[j]
        }),
    decreases models.len(),
{
    if models.len() > 0 {
        let n = models.len() - 1;
        let init = models.drop_last();
        lemma_models_commands(program, vertex_array, vertex_buffer, element_buffer_object, init);
        lemma_model_commands(
            program,
            vertex_array,
            vertex_buffer,
            element_buffer_object,
            models.last(),
            n as usize,
        );
        let c = models_commands(program, vertex_array, vertex_buffer, element_buffer_object, models);
        let p = models_commands(program, vertex_array, vertex_buffer, element_buffer_object, init);
        let q = model_commands(program, vertex_array, vertex_buffer, element_buffer_object, models.last(), n as usize);
        assert(c == p + q);
        assert forall|k: int, j: int| 0 <= k < models.len() && 0 <= j < 14 implies #[trigger] c[14 * k + j]
            == model_commands(
            program,
            vertex_array,
            vertex_buffer,
            element_buffer_object,
            models[k],
            k as usize,
        )[j] by {
            if k < n {
                assert(init[k] == models[k]);
                assert(c[14 * k + j] == p[14 * k + j]);
            } else {
                assert(c[14 * k + j] == q[j]);
            }
        }
    }
}

impl<B> Gl<B> {
    /// The GL function table.
    pub closed spec fn functions(self) -> B {
        self.gl
    }

    /// The name of the vertex buffer.
    pub closed spec fn vertex_buffer_name(self) -> u32 {
        self.vertex_buffer
    }

    /// The name of the element (index) buffer.
    pub closed spec fn element_buffer_name(self) -> u32 {
        self.element_buffer_object
    }

    /// The name of the vertex array object.
    pub closed spec fn vertex_array_name(self) -> u32 {
        self.vertex_attribute_array
    }

    /// The name of the linked shader program.
    pub closed spec fn program_name(self) -> u32 {
        self.shader_program
    }

    /// A renderer over the function table `gl` and the objects it created.
    pub fn new(
        gl: B,
        vertex_buffer: u32,
        element_buffer_object: u32,
        vertex_attribute_array: u32,
        shader_program: u32,
    ) -> (r: Self)
        ensures
            r.functions() == gl,
            r.vertex_buffer_name() == vertex_buffer,
            r.element_buffer_name() == element_buffer_object,
            r.vertex_array_name() == vertex_attribute_array,
            r.program_name() == shader_program,
    {
        Gl { gl, vertex_buffer, element_buffer_object, vertex_attribute_array, shader_program }
    }

    /// The commands that draw a frame from `vertex_floats` coordinates (three
    /// per vertex) and `index_count` triangle indices, the arrays of model 0:
    /// clear, then upload both arrays and draw, then read the error flag.
    pub fn draw_frame(&self, vertex_floats: usize, index_count: usize) -> (cmds: Vec<GlCommand>)
        requires
            vertex_floats * F32_BYTES <= usize::MAX,
            index_count * U32_BYTES <= usize::MAX,
        ensures
            cmds@ == seq![
                GlCommand::ClearColor,
                GlCommand::Clear(COLOR_BUFFER_BIT),
                GlCommand::UseProgram(self.program_name()),
                GlCommand::BindVertexArray(self.vertex_array_name()),
            ] + draw_commands(
                self.vertex_buffer_name(),
                self.element_buffer_name(),
                vertex_floats * F32_BYTES,
                index_count as int,
                0,
            ) + seq![GlCommand::GetError],
            cmds@.len() == 14,
            cmds@[5] == GlCommand::BufferData(
                ARRAY_BUFFER,
                (vertex_floats * 4) as isize,
                BufferSource::Vertices(0),
                DYNAMIC_DRAW,
            ),
            cmds@[7] == GlCommand::BufferData(
                ELEMENT_ARRAY_BUFFER,
                (index_count * 4) as isize,
                BufferSource::Indices(0),
                DYNAMIC_DRAW,
            ),
            cmds@[10] == GlCommand::DrawElements(TRIANGLES, index_count as i32, UNSIGNED_INT, 0),
    {
        let mut cmds: Vec<GlCommand> = Vec::new();
        cmds.push(GlCommand::ClearColor);
        cmds.push(GlCommand::Clear(COLOR_BUFFER_BIT));
        cmds.push(GlCommand::UseProgram(self.shader_program));
        cmds.push(GlCommand::BindVertexArray(self.vertex_attribute_array));
        self.push_draw(&mut cmds, vertex_floats * F32_BYTES, index_count, 0);
        cmds.push(GlCommand::GetError);
        proof {
            assert(cmds@ =~= seq![
                GlCommand::ClearColor,
                GlCommand::Clear(COLOR_BUFFER_BIT),
                GlCommand::UseProgram(self.program_name()),
                GlCommand::BindVertexArray(self.vertex_array_name()),
            ] + draw_commands(
                self.vertex_buffer_name(),
                self.element_buffer_name(),
                vertex_floats * F32_BYTES,
                index_count as int,
                0,
            ) + seq![GlCommand::GetError]);
            lemma_draw_commands(
                self.vertex_buffer_name(),
                self.element_buffer_name(),
                vertex_floats * F32_BYTES,
                index_count as int,
                0,
            );
        }
        cmds
    }

    /// Appends the upload-and-draw commands of model `model` to `cmds`.
    fn push_draw(&self, cmds: &mut Vec<GlCommand>, vertex_bytes: usize, index_count: usize, model: usize)
        requires
            index_count * U32_BYTES <= usize::MAX,
        ensures
            final(cmds)@ == old(cmds)@ + draw_commands(
                self.vertex_buffer_name(),
                self.element_buffer_name(),
                vertex_bytes as int,
                index_count as int,
                model,
            ),
    {
        let ghost start = cmds@;
        cmds.push(GlCommand::BindBuffer(ARRAY_BUFFER, self.vertex_buffer));
        cmds.push(
            GlCommand::BufferData(ARRAY_BUFFER, vertex_bytes as isize, BufferSource::Vertices(model), DYNAMIC_DRAW),
        );
        cmds.push(GlCommand::BindBuffer(ELEMENT_ARRAY_BUFFER, self.element_buffer_object));
        cmds.push(
            GlCommand::BufferData(
                ELEMENT_ARRAY_BUFFER,
                (index_count * U32_BYTES) as isize,
                BufferSource::Indices(model),
                DYNAMIC_DRAW,
            ),
        );
        cmds.push(GlCommand::VertexAttribPointer(0, 3, FLOAT, FALSE, (3 * F32_BYTES) as i32, 0));
        cmds.push(GlCommand::EnableVertexAttribArray(0));
        cmds.push(GlCommand::DrawElements(TRIANGLES, index_count as i32, UNSIGNED_INT, 0));
        cmds.push(GlCommand::BindBuffer(ARRAY_BUFFER, 0));
        cmds.push(GlCommand::BindVertexArray(0));
        proof {
            assert(cmds@ =~= start + draw_commands(
                self.vertex_buffer_name(),
                self.element_buffer_name(),
                vertex_bytes as int,
                index_count as int,
                model,
            ));
        }
    }

    /// The commands that draw one model, as model 0 of the frame.
    pub fn draw_model(&self, model: &ModelCounts) -> (cmds: Vec<GlCommand>)
        requires
            model_fits(*model),
        ensures
            cmds@ == model_commands(
                self.program_name(),
                self.vertex_array_name(),
                self.vertex_buffer_name(),
                self.element_buffer_name(),
                *model,
                0,
            ),
            cmds@.len() == 14,
            cmds@[6] == GlCommand::BufferData(
                ARRAY_BUFFER,
                (model.vertex_count * 12) as isize,
                BufferSource::Vertices(0),
                DYNAMIC_DRAW,
            ),
            cmds@[8] == GlCommand::BufferData(
                ELEMENT_ARRAY_BUFFER,
                (model.index_count * 4) as isize,
                BufferSource::Indices(0),
                DYNAMIC_DRAW,
            ),
            cmds@[11] == GlCommand::DrawElements(TRIANGLES, model.index_count as i32, UNSIGNED_INT, 0),
    {
        let mut cmds: Vec<GlCommand> = Vec::new();
        self.push_model(&mut cmds, model, 0);
        proof {
            assert(cmds@ =~= model_commands(
                self.program_name(),
                self.vertex_array_name(),
                self.vertex_buffer_name(),
                self.element_buffer_name(),
                *model,
                0,
            ));
            lemma_model_commands(
                self.program_name(),
                self.vertex_array_name(),
                self.vertex_buffer_name(),
                self.element_buffer_name(),
                *model,
                0,
            );
        }
        cmds
    }

    /// Appends the commands that draw `model`, at position `position`, to
    /// `cmds`.
    fn push_model(&self, cmds: &mut Vec<GlCommand>, model: &ModelCounts, position: usize)
        requires
            model_fits(*model),
        ensures
            final(cmds)@ == old(cmds)@ + model_commands(
                self.program_name(),
                self.vertex_array_name(),
                self.vertex_buffer_name(),
                self.element_buffer_name(),
                *model,
                position,
            ),
    {
        let ghost start = cmds@;
        cmds.push(GlCommand::UniformIdentity(self.shader_program, UniformName::Model));
        cmds.push(GlCommand::UniformIdentity(self.shader_program, UniformName::View));
        cmds.push(GlCommand::UniformIdentity(self.shader_program, UniformName::PositionMat));
        cmds.push(GlCommand::GetError);
        cmds.push(GlCommand::BindVertexArray(self.vertex_attribute_array));
        self.push_draw(cmds, model.vertex_count * 3 * F32_BYTES, model.index_count, position);
        proof {
            assert(cmds@ =~= start + model_commands(
                self.program_name(),
                self.vertex_array_name(),
                self.vertex_buffer_name(),
                self.element_buffer_name(),
                *model,
                position,
            ));
        }
    }

    /// The commands that draw a frame of several models: clear, list the
    /// program's active uniforms, read the error flag, then draw each model in
    /// turn.
    pub fn draw_models(&self, models: &Vec<ModelCounts>) -> (cmds: Vec<GlCommand>)
        requires
            forall|i: int| 0 <= i < models@.len() ==> model_fits(#[trigger] models@[i]),
        ensures
            cmds@ == seq![
                GlCommand::ClearColor,
                GlCommand::Clear(COLOR_BUFFER_BIT),
                GlCommand::UseProgram(self.program_name()),
                GlCommand::ListActiveUniforms(self.program_name()),
                GlCommand::GetError,
            ] + models_commands(
                self.program_name(),
                self.vertex_array_name(),
                self.vertex_buffer_name(),
                self.element_buffer_name(),
                models@,
            ),
            cmds@.len() == 5 + 14 * models@.len(),
            forall|k: int, j: int|
                0 <= k < models@.len() && 0 <= j < 14 ==> #[trigger] cmds@[5 + 14 * k + j] == model_commands(
                    self.program_name(),
                    self.vertex_array_name(),
                    self.vertex_buffer_name(),
                    self.element_buffer_name(),
                    models@[k],
                    k as usize,
                )[j],
            forall|k: int|
                0 <= k < models@.len() ==> {
                    &&& #[trigger] cmds@[5 + 14 * k + 6] == GlCommand::BufferData(
                        ARRAY_BUFFER,
                        (models@[k].vertex_count * 12) as isize,
                        BufferSource::Vertices(k as usize),
                        DYNAMIC_DRAW,
                    )
                    &&& cmds@[5 + 14 * k + 8] == GlCommand::BufferData(
                        ELEMENT_ARRAY_BUFFER,
                        (models@[k].index_count * 4) as isize,
                        BufferSource::Indices(k as usize),
                        DYNAMIC_DRAW,
                    )
                    &&& cmds@[5 + 14 * k + 11] == GlCommand::DrawElements(
                        TRIANGLES,
                        models@[k].index_count as i32,
                        UNSIGNED_INT,
                        0,
                    )
                },
    {
        let mut cmds: Vec<GlCommand> = Vec::new();
        cmds.push(GlCommand::ClearColor);
        cmds.push(GlCommand::Clear(COLOR_BUFFER_BIT));
        cmds.push(GlCommand::UseProgram(self.shader_program));
        cmds.push(GlCommand::ListActiveUniforms(self.shader_program));
        cmds.push(GlCommand::GetError);
        let ghost head = cmds@;
        let mut k: usize = 0;
        while k < models.len()
            invariant
                k <= models@.len(),
                forall|i: int| 0 <= i < models@.len() ==> model_fits(#[trigger] models@[i]),
                cmds@ == head + models_commands(
                    self.program_name(),
                    self.vertex_array_name(),
                    self.vertex_buffer_name(),
                    self.element_buffer_name(),
                    models@.take(k as int),
                ),
            decreases models@.len() - k,
        {
            proof {
                assert(models@.take(k as int + 1).drop_last() =~= models@.take(k as int));
                assert(models@.take(k as int + 1).last() == models@[k as int]);
            }
            self.push_model(&mut cmds, &models[k], k);
            k = k + 1;
        }
        proof {
            assert(models@.take(models@.len() as int) =~= models@);
            let tail = models_commands(
                self.program_name(),
                self.vertex_array_name(),
                self.vertex_buffer_name(),
                self.element_buffer_name(),
                models@,
            );
            lemma_models_commands(
                self.program_name(),
                self.vertex_array_name(),
                self.vertex_buffer_name(),
                self.element_buffer_name(),
                models@,
            );
            assert forall|k: int, j: int| 0 <= k < models@.len() && 0 <= j < 14 implies #[trigger] cmds@[5
                + 14 * k + j] == model_commands(
                self.program_name(),
                self.vertex_array_name(),
                self.vertex_buffer_name(),
                self.element_buffer_name(),
                models@[k],
                k as usize,
            )[j] by {
                assert(cmds@[5 + 14 * k + j] == tail[14 * k + j]);
            }
            assert forall|k: int| 0 <= k < models@.len() implies {
                &&& #[trigger] cmds@[5 + 14 * k + 6] == GlCommand::BufferData(
                    ARRAY_BUFFER,
                    (models@[k].vertex_count * 12) as isize,
                    BufferSource::Vertices(k as usize),
                    DYNAMIC_DRAW,
                )
                &&& cmds@[5 + 14 * k + 8] == GlCommand::BufferData(
                    ELEMENT_ARRAY_BUFFER,
                    (models@[k].index_count * 4) as isize,
                    BufferSource::Indices(k as usize),
                    DYNAMIC_DRAW,
                )
                &&& cmds@[5 + 14 * k + 11] == GlCommand::DrawElements(
                    TRIANGLES,
                    models@[k].index_count as i32,
                    UNSIGNED_INT,
                    0,
                )
            } by {
                assert(cmds@[5 + 14 * k + 6] == tail[14 * k + 6]);
                assert(cmds@[5 + 14 * k + 8] == tail[14 * k + 8]);
                assert(cmds@[5 + 14 * k + 11] == tail[14 * k + 11]);
            }
        }
        cmds
    }
}

/// The hexadecimal digits, lower case.
pub open spec fn hex_digits() -> Seq<char> {
    seq!['0', '1', '2', '3', '4', '5', '6', '7', '8', '9', 'a', 'b', 'c', 'd', 'e', 'f']
}

/// `b` as the alternate hexadecimal format (`{:#x}`) writes it: `0x`, then
/// its digits without leading zeros.
pub open spec fn alternate_hex(b: u8) -> Seq<char> {
    seq!['0', 'x'] + if b < 16 {
        seq![hex_digits()[b as int]]
    } else {
        seq![hex_digits()[(b / 16) as int], hex_digits()[(b % 16) as int]]
    }
}

/// Each non-zero byte of `s` in order, written by `alternate_hex` and
/// followed by `", "`.
pub open spec fn nonzero_hex_listing(s: Seq<u8>) -> Seq<char>
    decreases s.len(),
{
    if s.len() == 0 {
        Seq::empty()
    } else {
        nonzero_hex_listing(s.drop_last()) + if s.last() == 0 {
            Seq::<char>::empty()
        } else {
            alternate_hex(s.last()) + seq![',', ' ']
        }
    }
}

/// The value of a lower-case hexadecimal digit, `-1` for any other character.
pub open spec fn hex_digit_value(c: char) -> int {
    if '0' <= c && c <= '9' {
        c as int - '0' as int
    } else if 'a' <= c && c <= 'f' {
        c as int - 'a' as int + 10
    } else {
        -1
    }
}

/// The number that the hexadecimal digits `s` write, most significant first.
pub open spec fn hex_number(s: Seq<char>) -> int
    decreases s.len(),
{
    if s.len() == 0 {
        0
    } else {
        hex_number(s.drop_last()) * 16 + hex_digit_value(s.last())
    }
}

/// Each digit of `hex_digits` has its position as its value.
pub proof fn lemma_hex_digits()
    ensures
        hex_digits().len() == 16,
        forall|d: int| 0 <= d < 16 ==> hex_digit_value(#[trigger] hex_digits()[d]) == d,
{
    assert forall|d: int| 0 <= d < 16 implies hex_digit_value(#[trigger] hex_digits()[d]) == d by {
        if d == 0 { assert(hex_digits()[0] == '0'); }
        else if d == 1 { assert(hex_digits()[1] == '1'); }
        else if d == 2 { assert(hex_digits()[2] == '2'); }
        else if d == 3 { assert(hex_digits()[3] == '3'); }
        else if d == 4 { assert(hex_digits()[4] == '4'); }
        else if d == 5 { assert(hex_digits()[5] == '5'); }
        else if d == 6 { assert(hex_digits()[6] == '6'); }
        else if d == 7 { assert(hex_digits()[7] == '7'); }
        else if d == 8 { assert(hex_digits()[8] == '8'); }
        else if d == 9 { assert(hex_digits()[9] == '9'); }
        else if d == 10 { assert(hex_digits()[10] == 'a'); }
        else if d == 11 { assert(hex_digits()[11] == 'b'); }
        else if d == 12 { assert(hex_digits()[12] == 'c'); }
        else if d == 13 { assert(hex_digits()[13] == 'd'); }
        else if d == 14 { assert(hex_digits()[14] == 'e'); }
        else { assert(hex_digits()[15] == 'f'); }
    }
}

/// `alternate_hex(b)` is `0x` followed by one or two hexadecimal digits that
/// write `b`, with no leading zero unless `b` is zero.
pub proof fn lemma_alternate_hex(b: u8)
    ensures
        ({
            let s = alternate_hex(b);
            let digits = s.subrange(2, s.len() as int);
            &&& s.len() == if b < 16 { 3int } else { 4int }
            &&& s[0] == '0' && s[1] == 'x'
            &&& forall|i: int| 0 <= i < digits.len() ==> 0 <= #[trigger] hex_digit_value(digits[i]) < 16
            &&& hex_number(digits) == b
            &&& (digits[0] != '0' || b == 0)
        }),
{
    lemma_hex_digits();
    let s = alternate_hex(b);
    let digits = s.subrange(2, s.len() as int);
    assert(hex_number(Seq::<char>::empty()) == 0);
    if b < 16 {
        assert(digits =~= seq![hex_digits()[b as int]]);
        assert(digits.drop_last() =~= Seq::<char>::empty());
        assert(hex_digit_value(digits.last()) == b);
        assert(hex_number(digits) == hex_number(digits.drop_last()) * 16 + hex_digit_value(digits.last()));
        if b != 0 {
            assert(hex_digit_value(digits[0]) != 0);
        }
    } else {
        let hi = (b / 16) as int;
        let lo = (b % 16) as int;
        assert(hi * 16 + lo == b);
        assert(digits =~= seq![hex_digits()[hi], hex_digits()[lo]]);
        let first = digits.drop_last();
        assert(first =~= seq![hex_digits()[hi]]);
        assert(first.drop_last() =~= Seq::<char>::empty());
        assert(hex_digit_value(first.last()) == hi);
        assert(hex_number(first) == hex_number(first.drop_last()) * 16 + hex_digit_value(first.last()));
        assert(hex_number(first) == hi);
        assert(hex_digit_value(digits.last()) == lo);
        assert(hex_number(digits) == hex_number(first) * 16 + hex_digit_value(digits.last()));
        assert(hex_digit_value(digits[0]) == hi);
        assert(hi != 0);
    }
}

/// The listing of one byte: nothing for zero, else the byte as `{:#x}`
/// followed by `", "`.
pub proof fn lemma_hex_listing_byte(x: u8)
    ensures
        nonzero_hex_listing(seq![x]) == if x == 0 {
            Seq::<char>::empty()
        } else {
            alternate_hex(x) + seq![',', ' ']
        },
{
    assert(seq![x].drop_last() =~= Seq::<u8>::empty());
    assert(nonzero_hex_listing(Seq::<u8>::empty()) == Seq::<char>::empty());
    assert(nonzero_hex_listing(seq![x].drop_last()) == Seq::<char>::empty());
    assert(seq![x].last() == x);
    if x == 0 {
        assert(nonzero_hex_listing(seq![x]) =~= Seq::<char>::empty());
    } else {
        assert(nonzero_hex_listing(seq![x]) =~= alternate_hex(x) + seq![',', ' ']);
    }
}

/// The listing goes byte by byte: the listing of two byte strings one after
/// the other is the listing of the first followed by that of the second.
pub proof fn lemma_hex_listing_concat(a: Seq<u8>, b: Seq<u8>)
    ensures
        nonzero_hex_listing(a + b) == nonzero_hex_listing(a) + nonzero_hex_listing(b),
    decreases b.len(),
{
    if b.len() == 0 {
        assert(a + b =~= a);
        assert(nonzero_hex_listing(a) + nonzero_hex_listing(b) =~= nonzero_hex_listing(a));
    } else {
        assert((a + b).drop_last() =~= a + b.drop_last());
        assert((a + b).last() == b.last());
        lemma_hex_listing_concat(a, b.drop_last());
        let tail = if b.last() == 0 {
            Seq::<char>::empty()
        } else {
            alternate_hex(b.last()) + seq![',', ' ']
        };
        assert(nonzero_hex_listing(a + b) == nonzero_hex_listing(a + b.drop_last()) + tail);
        assert(nonzero_hex_listing(b) == nonzero_hex_listing(b.drop_last()) + tail);
        assert(nonzero_hex_listing(a + b) =~= nonzero_hex_listing(a) + nonzero_hex_listing(b));
    }
}

/// The hexadecimal digit `d` as a string.
fn hex_digit(d: u8) -> (s: &'static str)
    requires
        d < 16,
    ensures
        s@ == seq![hex_digits()[d as int]],
{
    proof {
            reveal_strlit("0");
            reveal_strlit("1");
            reveal_strlit("2");
            reveal_strlit("3");
            reveal_strlit("4");
            reveal_strlit("5");
            reveal_strlit("6");
            reveal_strlit("7");
            reveal_strlit("8");
            reveal_strlit("9");
            reveal_strlit("a");
            reveal_strlit("b");
            reveal_strlit("c");
            reveal_strlit("d");
            reveal_strlit("e");
            reveal_strlit("f");
    }
    match d {
            0 => "0",
            1 => "1",
            2 => "2",
            3 => "3",
            4 => "4",
            5 => "5",
            6 => "6",
            7 => "7",
            8 => "8",
            9 => "9",
            10 => "a",
            11 => "b",
            12 => "c",
            13 => "d",
            14 => "e",
            _ => "f",
    }
}

/// The non-zero bytes of `bytes`, each in the alternate hexadecimal format and
/// followed by `", "`: how the renderer prints the raw name of a uniform.
pub fn hex_listing(bytes: &[u8]) -> (s: String)
    ensures
        s@ == nonzero_hex_listing(bytes@),
{
    let mut s = String::new();
    let mut i: usize = 0;
    while i < bytes.len()
        invariant
            i <= bytes@.len(),
            s@ == nonzero_hex_listing(bytes@.take(i as int)),
        decreases bytes@.len() - i,
    {
        let b = bytes[i];
        proof {
            assert(bytes@.take(i as int + 1).drop_last() =~= bytes@.take(i as int));
            assert(bytes@.take(i as int + 1).last() == b);
        }
        let ghost before = s@;
        if b != 0 {
            s.append("0x");
            if b >= 16 {
                s.append(hex_digit(b / 16));
            }
            s.append(hex_digit(b % 16));
            s.append(", ");
            proof {
                reveal_strlit("0x");
                reveal_strlit(", ");
                assert(s@ =~= before + alternate_hex(b) + seq![',', ' ']);
            }
        } else {
            assert(s@ =~= before + Seq::<char>::empty());
        }
        i = i + 1;
    }
    proof {
        assert(bytes@.take(bytes@.len() as int) =~= bytes@);
    }
    s
}

} // verus!
