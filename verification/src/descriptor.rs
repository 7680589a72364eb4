//! Descriptors that the kernel translator emits for every compute entry point.
use vstd::prelude::*;
use crate::abi::ResourceLayout;

verus! {

/// Marker implemented by the zero-sized host handle generated for each kernel.
pub trait Kernel {
    fn descriptor() -> KernelDescriptor;
}

#[derive(Clone, Copy, Debug)]
pub struct ModuleDescriptor {
    pub name: &'static str,
    pub kernels: &'static [KernelDescriptor],
}

#[derive(Clone, Copy, Debug)]
pub struct KernelDescriptor {
    pub module: &'static str,
    pub name: &'static str,
    /// Prefixed entry point used in generated Slang and target binaries.
    pub entry_point: &'static str,
    pub workgroup_size: [u32; 3],
    pub parameters: &'static [ParameterDescriptor],
    /// Slang source emitted directly from the annotated Rust syntax tree.
    pub slang_source: &'static str,
}

/// `module::name` of a kernel.
pub open spec fn spec_qualified_name(module: Seq<char>, name: Seq<char>) -> Seq<char> {
    module + seq![':', ':'] + name
}

impl KernelDescriptor {
    /// The `module::name` path of this kernel, for diagnostics.
    pub fn qualified_name(&self) -> (r: QualifiedName<'_>)
        ensures
            r.descriptor() == *self,
    {
        QualifiedName(self)
    }
}

/// Display helper naming a kernel by its Rust path.
pub struct QualifiedName<'a>(&'a KernelDescriptor);

impl<'a> QualifiedName<'a> {
    pub closed spec fn descriptor(&self) -> KernelDescriptor {
        *self.0
    }

    /// The rendered `module::name` text.
    pub fn to_string(&self) -> (r: String)
        ensures
            r@ == spec_qualified_name(self.descriptor().module@, self.descriptor().name@),
    {
        let mut out = String::from_str(self.0.module);
        let separator = "::";
        proof {
            reveal_strlit("::");
        }
        out.append(separator);
        out.append(self.0.name);
        out
    }
}

#[derive(Clone, Copy, Debug)]
pub struct ParameterDescriptor {
    pub name: &'static str,
    pub rust_type: &'static str,
    pub kind: ParameterKind,
    pub access: Access,
    /// Host/GPU element ABI for resource parameters supported by the runtime.
    pub resource_layout: Option<ResourceLayout>,
    /// Shader resource location. Invocation and plain value parameters do not
    /// occupy a resource binding.
    pub binding: Option<ResourceBinding>,
}

/// Backend-neutral shader resource address assigned from a kernel parameter.
#[derive(Clone, Copy, Debug, PartialEq, Eq, Structural)]
pub struct ResourceBinding {
    pub group: u32,
    pub binding: u32,
}

#[derive(Clone, Copy, Debug, PartialEq, Eq, Structural)]
pub enum ParameterKind {
    Invocation,
    Storage,
    Uniform,
    Value,
}

#[derive(Clone, Copy, Debug, PartialEq, Eq, Structural)]
pub enum Access {
    ReadOnly,
    ReadWrite,
    NotApplicable,
}

} // verus!
