use vstd::prelude::*;

verus! {

/// The registers an interrupt stub pushes for an interrupt without an error code.
#[derive(Clone, Copy, Debug, PartialEq, Eq, Structural)]
pub struct RawContext {
    pub cr3: u32,
    pub _ds: u32,
    pub edi: u32,
    pub esi: u32,
    pub ebp: u32,
    pub _int_esp: u32,
    pub ebx: u32,
    pub edx: u32,
    pub ecx: u32,
    pub eax: u32,
    pub eip: u32,
    pub _cs: u32,
    pub eflags: u32,
    pub esp: u32,
}

/// The registers an interrupt stub pushes for an exception with an error code.
#[derive(Clone, Copy, Debug, PartialEq, Eq, Structural)]
pub struct RawErrContext {
    pub cr3: u32,
    pub _ds: u32,
    pub edi: u32,
    pub esi: u32,
    pub ebp: u32,
    pub _int_esp: u32,
    pub ebx: u32,
    pub edx: u32,
    pub ecx: u32,
    pub eax: u32,
    pub _error: u32,
    pub eip: u32,
    pub _cs: u32,
    pub eflags: u32,
    pub esp: u32,
}

/// The saved user state of a process.
#[derive(Clone, Copy, Debug, PartialEq, Eq, Structural)]
pub struct Context {
    pub cr3: u32,
    pub edi: u32,
    pub esi: u32,
    pub ebp: u32,
    pub ebx: u32,
    pub edx: u32,
    pub ecx: u32,
    pub eax: u32,
    pub eip: u32,
    pub eflags: u32,
    pub esp: u32,
}

impl Default for Context {
    fn default() -> (c: Context)
        ensures
            c == (Context {
                cr3: 0,
                edi: 0,
                esi: 0,
                ebp: 0,
                ebx: 0,
                edx: 0,
                ecx: 0,
                eax: 0,
                eip: 0,
                eflags: 0,
                esp: 0,
            }),
    {
        Context {
            cr3: 0,
            edi: 0,
            esi: 0,
            ebp: 0,
            ebx: 0,
            edx: 0,
            ecx: 0,
            eax: 0,
            eip: 0,
            eflags: 0,
            esp: 0,
        }
    }
}

/// The context a new process starts in: at `eip` with stack pointer `esp` in the address space
/// whose page directory is at `cr3`, every other register zero.
pub open spec fn initial_context(eip: u32, esp: u32, cr3: u32) -> Context {
    Context { cr3, edi: 0, esi: 0, ebp: 0, ebx: 0, edx: 0, ecx: 0, eax: 0, eip, eflags: 0, esp }
}

impl Context {
    /// The context a new process starts in.
    pub fn new(eip: u32, esp: u32, cr3: u32) -> (c: Context)
        ensures
            c == initial_context(eip, esp, cr3),
    {
        Context { cr3, edi: 0, esi: 0, ebp: 0, ebx: 0, edx: 0, ecx: 0, eax: 0, eip, eflags: 0, esp }
    }
}

impl RawContext {
    /// Whether the interrupted code ran in the kernel: the privilege bits of its code segment
    /// selector are 0.
    pub fn was_kernel(&self) -> (r: bool)
        ensures
            r == (self._cs % 4 == 0),
    {
        self._cs % 4 == 0
    }

    /// Sets the value a system call returns to user code.
    pub fn set_return_code(&mut self, code: u32)
        ensures
            *final(self) == (RawContext { eax: code, ..*old(self) }),
    {
        self.eax = code;
    }
}

/// An interrupt frame from and into which a process's state is transferred.
pub trait Contextable {
    /// The process state held in this frame.
    spec fn context(&self) -> Context;

    /// Copies the process state out of this frame.
    fn save(&self, context: &mut Context)
        ensures
            *final(context) == self.context(),
    ;

    /// Copies `context` into this frame, so that returning from the interrupt resumes it.
    fn load(&mut self, context: &Context)
        ensures
            final(self).context() == *context,
    ;
}

impl Contextable for RawContext {
    open spec fn context(&self) -> Context {
        Context {
            cr3: self.cr3,
            edi: self.edi,
            esi: self.esi,
            ebp: self.ebp,
            ebx: self.ebx,
            edx: self.edx,
            ecx: self.ecx,
            eax: self.eax,
            eip: self.eip,
            eflags: self.eflags,
            esp: self.esp,
        }
    }

    fn save(&self, context: &mut Context) {
        context.cr3 = self.cr3;
        context.edi = self.edi;
        context.esi = self.esi;
        context.ebp = self.ebp;
        context.ebx = self.ebx;
        context.edx = self.edx;
        context.ecx = self.ecx;
        context.eax = self.eax;
        context.eip = self.eip;
        context.eflags = self.eflags;
        context.esp = self.esp;
    }

    fn load(&mut self, context: &Context)
        ensures
            final(self)._ds == old(self)._ds,
            final(self)._int_esp == old(self)._int_esp,
            final(self)._cs == old(self)._cs,
    {
        self.cr3 = context.cr3;
        self.edi = context.edi;
        self.esi = context.esi;
        self.ebp = context.ebp;
        self.ebx = context.ebx;
        self.edx = context.edx;
        self.ecx = context.ecx;
        self.eax = context.eax;
        self.eip = context.eip;
        self.eflags = context.eflags;
        self.esp = context.esp;
    }
}

impl Contextable for RawErrContext {
    open spec fn context(&self) -> Context {
        Context {
            cr3: self.cr3,
            edi: self.edi,
            esi: self.esi,
            ebp: self.ebp,
            ebx: self.ebx,
            edx: self.edx,
            ecx: self.ecx,
            eax: self.eax,
            eip: self.eip,
            eflags: self.eflags,
            esp: self.esp,
        }
    }

    fn save(&self, context: &mut Context) {
        context.cr3 = self.cr3;
        context.edi = self.edi;
        context.esi = self.esi;
        context.ebp = self.ebp;
        context.ebx = self.ebx;
        context.edx = self.edx;
        context.ecx = self.ecx;
        context.eax = self.eax;
        context.eip = self.eip;
        context.eflags = self.eflags;
        context.esp = self.esp;
    }

    fn load(&mut self, context: &Context)
        ensures
            final(self)._ds == old(self)._ds,
            final(self)._int_esp == old(self)._int_esp,
            final(self)._error == old(self)._error,
            final(self)._cs == old(self)._cs,
    {
        self.cr3 = context.cr3;
        self.edi = context.edi;
        self.esi = context.esi;
        self.ebp = context.ebp;
        self.ebx = context.ebx;
        self.edx = context.edx;
        self.ecx = context.ecx;
        self.eax = context.eax;
        self.eip = context.eip;
        self.eflags = context.eflags;
        self.esp = context.esp;
    }
}

} // verus!
