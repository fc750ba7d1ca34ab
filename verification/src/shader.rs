use vstd::prelude::*;
use vstd::string::StringExecFns;

verus! {

/// The stage that a shader is compiled for.
#[derive(Clone, Copy, Debug, PartialEq, Eq, Structural)]
pub enum ShaderKind {
    Fragment,
    Vertex,
}

/// A file found under the directory of the shaders.
#[derive(Debug)]
pub struct ShaderFile {
    /// The path of the file.
    pub path: String,
    /// The last component of the path.
    pub file_name: String,
    /// What follows the last dot of the file's name, if the name has one.
    pub extension: Option<String>,
}

/// One shader to compile: from the source at `source` to the binary at `output`.
#[derive(Debug)]
pub struct ShaderJob {
    pub source: String,
    pub output: String,
    pub kind: ShaderKind,
}

/// Why the shaders cannot be compiled.
#[derive(Clone, Copy, Debug, PartialEq, Eq, Structural)]
pub enum ShaderError {
    /// The file in place `file` is neither a binary nor a shader of a known stage.
    UnsupportedExtension { file: usize },
}

/// A shader to compile, as mathematical values.
pub struct JobView {
    pub source: Seq<char>,
    pub output: Seq<char>,
    pub kind: ShaderKind,
}

impl View for ShaderJob {
    type V = JobView;

    open spec fn view(&self) -> JobView {
        JobView { source: self.source@, output: self.output@, kind: self.kind }
    }
}

/// The stage of the shaders with the extension `extension`.
pub open spec fn kind_of(extension: Seq<char>) -> Option<ShaderKind> {
    if extension == "frag"@ {
        Some(ShaderKind::Fragment)
    } else if extension == "vert"@ {
        Some(ShaderKind::Vertex)
    } else {
        None
    }
}

/// Whether `file` is a compiled binary, which is left alone.
pub open spec fn is_binary(file: ShaderFile) -> bool {
    file.extension.is_some() && file.extension.unwrap()@ == "spv"@
}

/// Whether `file` is the source of a shader of a known stage.
pub open spec fn is_source(file: ShaderFile) -> bool {
    file.extension.is_some() && kind_of(file.extension.unwrap()@).is_some()
}

/// Where the binary of the shader with the file name `file_name` goes.
pub open spec fn output_path(file_name: Seq<char>) -> Seq<char> {
    "src/shader/spv/"@ + file_name + ".spv"@
}

/// The job that compiles the source `file`.
pub open spec fn job_of(file: ShaderFile) -> JobView {
    JobView {
        source: file.path@,
        output: output_path(file.file_name@),
        kind: kind_of(file.extension.unwrap()@).unwrap(),
    }
}

/// The jobs for `files`: one for each file that is no binary, in order.
pub open spec fn jobs_of(files: Seq<ShaderFile>) -> Seq<JobView>
    decreases files.len(),
{
    if files.len() == 0 {
        Seq::<JobView>::empty()
    } else if is_binary(files.last()) {
        jobs_of(files.drop_last())
    } else {
        jobs_of(files.drop_last()).push(job_of(files.last()))
    }
}

/// The jobs of `jobs`, as mathematical values.
pub open spec fn job_views(jobs: Seq<ShaderJob>) -> Seq<JobView> {
    Seq::new(jobs.len(), |i: int| jobs[i]@)
}

/// The stage of the shaders with the extension `extension`, if it is a known one.
pub fn get_shader_kind(extension: &String) -> (kind: Option<ShaderKind>)
    ensures
        kind == kind_of(extension@),
{
    let fragment = String::from_str("frag");
    let vertex = String::from_str("vert");
    if *extension == fragment {
        Some(ShaderKind::Fragment)
    } else if *extension == vertex {
        Some(ShaderKind::Vertex)
    } else {
        None
    }
}

/// Plans the compilation of the shaders among `files`, the files under the directory of
/// the shaders: every file but the binaries is compiled, to a binary named after it. Fails
/// at the first file that is neither a binary nor a shader of a known stage.
pub fn compile_shaders(files: &Vec<ShaderFile>) -> (planned: Result<Vec<ShaderJob>, ShaderError>)
    ensures
        match planned {
            Ok(jobs) => {
                &&& forall|i: int|
                    0 <= i < files@.len()
                        ==> is_binary(#[trigger] files@[i]) || is_source(files@[i])
                &&& job_views(jobs@) == jobs_of(files@)
            },
            Err(ShaderError::UnsupportedExtension { file }) => {
                &&& file < files@.len()
                &&& !is_binary(files@[file as int])
                &&& !is_source(files@[file as int])
                &&& forall|i: int|
                    0 <= i < file ==> is_binary(#[trigger] files@[i]) || is_source(files@[i])
            },
        },
{
    let binary = String::from_str("spv");
    let mut jobs: Vec<ShaderJob> = Vec::new();
    let mut i: usize = 0;
    proof {
        assert(job_views(jobs@) =~= jobs_of(files@.take(0)));
    }
    while i < files.len()
        invariant
            i <= files@.len(),
            binary@ == "spv"@,
            forall|k: int| 0 <= k < i ==> is_binary(#[trigger] files@[k]) || is_source(files@[k]),
            job_views(jobs@) == jobs_of(files@.take(i as int)),
        decreases files@.len() - i,
    {
        let file = &files[i];
        proof {
            assert(files@.take(i + 1).drop_last() =~= files@.take(i as int));
            assert(files@.take(i + 1).last() == *file);
        }
        match &file.extension {
            Some(extension) => {
                if *extension != binary {
                    match get_shader_kind(extension) {
                        Some(kind) => {
                            let mut output = String::from_str("src/shader/spv/");
                            output.append(file.file_name.as_str());
                            output.append(".spv");
                            let ghost held = jobs@;
                            let job = ShaderJob { source: file.path.clone(), output, kind };
                            jobs.push(job);
                            proof {
                                assert(job@ == job_of(*file));
                                assert(job_views(jobs@) =~= job_views(held).push(job@));
                            }
                        },
                        None => {
                            return Err(ShaderError::UnsupportedExtension { file: i });
                        },
                    }
                }
            },
            None => {
                return Err(ShaderError::UnsupportedExtension { file: i });
            },
        }
        i = i + 1;
    }
    proof {
        assert(files@.take(i as int) =~= files@);
    }
    Ok(jobs)
}

} // verus!
