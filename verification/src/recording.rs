//! Recordings: lists of GPU commands over resources that are known by name only.

use vstd::prelude::*;

verus! {

/// A compute shader.
#[derive(Clone, Copy, Debug, PartialEq, Eq, Structural)]
pub struct ShaderId(pub usize);

/// The pixel format of an image resource.
#[derive(Clone, Copy, Debug, PartialEq, Eq, Structural)]
pub enum ImageFormat {
    Rgba8,
    Bgra8,
}

/// The source of the identities of resources: each identity is given out once.
#[derive(Debug, PartialEq, Eq)]
pub struct ResourceIds {
    next: u64,
}

impl ResourceIds {
    /// The identity that is given out next.
    pub closed spec fn next_id(&self) -> u64 {
        self.next
    }

    /// Whether `count` more identities can be given out.
    pub open spec fn has_room(&self, count: int) -> bool {
        self.next_id() + count <= u64::MAX
    }

    /// A source from which nothing was given out.
    pub fn new() -> (ids: ResourceIds)
        ensures
            ids.next_id() == 1,
    {
        ResourceIds { next: 1 }
    }

    /// Whether `count` more identities can be given out.
    pub fn has_room_for(&self, count: u64) -> (room: bool)
        ensures
            room == self.has_room(count as int),
    {
        count <= u64::MAX - self.next
    }

    /// Gives out an identity.
    pub fn allocate(&mut self) -> (id: u64)
        requires
            old(self).has_room(1),
        ensures
            id == old(self).next_id(),
            final(self).next_id() == id + 1,
    {
        let id: u64 = self.next;
        self.next = id + 1;
        id
    }
}

/// A buffer, known by its identity.
#[derive(Clone, Copy, Debug, PartialEq, Eq)]
pub struct BufferProxy {
    /// Its size in bytes.
    pub size: u64,
    pub id: u64,
    pub name: &'static str,
}

impl BufferProxy {
    /// A new buffer.
    pub fn new(ids: &mut ResourceIds, size: u64, name: &'static str) -> (buffer: BufferProxy)
        requires
            old(ids).has_room(1),
        ensures
            buffer == (BufferProxy { size, id: old(ids).next_id(), name }),
            final(ids).next_id() == old(ids).next_id() + 1,
    {
        BufferProxy { size, id: ids.allocate(), name }
    }
}

/// An image, known by its identity.
#[derive(Clone, Copy, Debug, PartialEq, Eq, Structural)]
pub struct ImageProxy {
    pub width: u32,
    pub height: u32,
    pub format: ImageFormat,
    pub id: u64,
}

impl ImageProxy {
    /// A new image.
    pub fn new(ids: &mut ResourceIds, width: u32, height: u32, format: ImageFormat) -> (image:
        ImageProxy)
        requires
            old(ids).has_room(1),
        ensures
            image == (ImageProxy { width, height, format, id: old(ids).next_id() }),
            final(ids).next_id() == old(ids).next_id() + 1,
    {
        ImageProxy { width, height, format, id: ids.allocate() }
    }
}

/// A buffer or an image.
#[derive(Clone, Copy, Debug, PartialEq, Eq)]
pub enum ResourceProxy {
    Buffer(BufferProxy),
    Image(ImageProxy),
}

impl ResourceProxy {
    /// The identity of the resource.
    pub open spec fn resource_id(self) -> u64 {
        match self {
            ResourceProxy::Buffer(buffer) => buffer.id,
            ResourceProxy::Image(image) => image.id,
        }
    }

    /// A new buffer.
    pub fn new_buf(ids: &mut ResourceIds, size: u64, name: &'static str) -> (resource:
        ResourceProxy)
        requires
            old(ids).has_room(1),
        ensures
            resource == ResourceProxy::Buffer(
                BufferProxy { size, id: old(ids).next_id(), name },
            ),
            final(ids).next_id() == old(ids).next_id() + 1,
    {
        ResourceProxy::Buffer(BufferProxy::new(ids, size, name))
    }

    /// A new image.
    pub fn new_image(ids: &mut ResourceIds, width: u32, height: u32, format: ImageFormat) -> (
    resource: ResourceProxy)
        requires
            old(ids).has_room(1),
        ensures
            resource == ResourceProxy::Image(
                ImageProxy { width, height, format, id: old(ids).next_id() },
            ),
            final(ids).next_id() == old(ids).next_id() + 1,
    {
        ResourceProxy::Image(ImageProxy::new(ids, width, height, format))
    }

    /// The buffer, where the resource is one.
    pub fn as_buf(&self) -> (buffer: Option<BufferProxy>)
        ensures
            buffer == match *self {
                ResourceProxy::Buffer(buffer) => Some(buffer),
                ResourceProxy::Image(_) => None,
            },
    {
        match self {
            ResourceProxy::Buffer(buffer) => Some(*buffer),
            ResourceProxy::Image(_) => None,
        }
    }
}

/// How the alpha of an image is encoded.
#[derive(Clone, Copy, Debug, PartialEq, Eq, Structural)]
pub enum AlphaType {
    Alpha,
    AlphaPremultiplied,
}

/// The pixels of an image.
#[derive(Debug, PartialEq, Eq)]
pub struct ImageData {
    pub data: Vec<u8>,
    pub format: ImageFormat,
    pub alpha_type: AlphaType,
    pub width: u32,
    pub height: u32,
}

/// The pixels of an image.
#[verifier::ext_equal]
pub struct Pixels {
    pub data: Seq<u8>,
    pub format: ImageFormat,
    pub alpha_type: AlphaType,
    pub width: u32,
    pub height: u32,
}

impl View for ImageData {
    type V = Pixels;

    open spec fn view(&self) -> Pixels {
        Pixels {
            data: self.data@,
            format: self.format,
            alpha_type: self.alpha_type,
            width: self.width,
            height: self.height,
        }
    }
}

impl ImageData {
    /// The same pixels again.
    pub fn copy(&self) -> (image: ImageData)
        ensures
            image@ == self@,
    {
        let mut data: Vec<u8> = Vec::new();
        data.extend_from_slice(self.data.as_slice());
        assert(data@ =~= self.data@);
        ImageData {
            data,
            format: self.format,
            alpha_type: self.alpha_type,
            width: self.width,
            height: self.height,
        }
    }
}

/// The number of workgroups of a dispatch, in each direction.
pub type WorkgroupSize = (u32, u32, u32);

/// A GPU command.
#[derive(Debug, PartialEq, Eq)]
pub enum Command {
    /// Makes a storage buffer with these bytes.
    Upload(BufferProxy, Vec<u8>),
    /// Makes a uniform buffer with these bytes.
    UploadUniform(BufferProxy, Vec<u8>),
    /// Makes an image with these bytes.
    UploadImage(ImageProxy, Vec<u8>),
    /// Writes pixels into an image, at a place in it.
    WriteImage(ImageProxy, u32, u32, ImageData),
    /// Makes the contents of a buffer available.
    Download(BufferProxy),
    /// Runs a shader on resources.
    Dispatch(ShaderId, WorkgroupSize, Vec<ResourceProxy>),
    /// Runs a shader on resources, with the number of workgroups in a buffer.
    DispatchIndirect(ShaderId, BufferProxy, u64, Vec<ResourceProxy>),
    /// Sets the bytes of a buffer to zero, from a place in it.
    Clear(BufferProxy, u64, Option<u64>),
    /// Ends the use of a buffer.
    FreeBuffer(BufferProxy),
    /// Ends the use of an image.
    FreeImage(ImageProxy),
}

/// What a GPU command says.
#[verifier::ext_equal]
pub enum Action {
    Upload(BufferProxy, Seq<u8>),
    UploadUniform(BufferProxy, Seq<u8>),
    UploadImage(ImageProxy, Seq<u8>),
    WriteImage(ImageProxy, u32, u32, Pixels),
    Download(BufferProxy),
    Dispatch(ShaderId, WorkgroupSize, Seq<ResourceProxy>),
    DispatchIndirect(ShaderId, BufferProxy, u64, Seq<ResourceProxy>),
    Clear(BufferProxy, u64, Option<u64>),
    FreeBuffer(BufferProxy),
    FreeImage(ImageProxy),
}

/// The action that ends the use of a resource.
pub open spec fn free(resource: ResourceProxy) -> Action {
    match resource {
        ResourceProxy::Buffer(buffer) => Action::FreeBuffer(buffer),
        ResourceProxy::Image(image) => Action::FreeImage(image),
    }
}

impl View for Command {
    type V = Action;

    open spec fn view(&self) -> Action {
        match *self {
            Command::Upload(buffer, data) => Action::Upload(buffer, data@),
            Command::UploadUniform(buffer, data) => Action::UploadUniform(buffer, data@),
            Command::UploadImage(image, data) => Action::UploadImage(image, data@),
            Command::WriteImage(image, x, y, data) => Action::WriteImage(image, x, y, data@),
            Command::Download(buffer) => Action::Download(buffer),
            Command::Dispatch(shader, size, bindings) => Action::Dispatch(shader, size, bindings@),
            Command::DispatchIndirect(shader, buffer, offset, bindings) => Action::DispatchIndirect(
                shader,
                buffer,
                offset,
                bindings@,
            ),
            Command::Clear(buffer, offset, size) => Action::Clear(buffer, offset, size),
            Command::FreeBuffer(buffer) => Action::FreeBuffer(buffer),
            Command::FreeImage(image) => Action::FreeImage(image),
        }
    }
}

/// A list of GPU commands.
#[derive(Debug, PartialEq, Eq)]
pub struct Recording {
    pub commands: Vec<Command>,
}

impl View for Recording {
    type V = Seq<Action>;

    open spec fn view(&self) -> Seq<Action> {
        self.commands@.map_values(|command: Command| command@)
    }
}

impl Default for Recording {
    /// A recording without commands.
    fn default() -> (recording: Recording)
        ensures
            recording@ == Seq::<Action>::empty(),
    {
        let recording = Recording { commands: Vec::new() };
        assert(recording@ =~= Seq::<Action>::empty());
        recording
    }
}

impl Recording {
    /// Appends a command.
    pub fn push(&mut self, command: Command)
        ensures
            final(self)@ == old(self)@.push(command@),
    {
        self.commands.push(command);
        assert(self@ =~= old(self)@.push(command@));
    }

    /// Appends the commands of another recording, which loses them.
    pub fn append(&mut self, other: &mut Recording)
        ensures
            final(self)@ == old(self)@ + old(other)@,
            final(other)@ == Seq::<Action>::empty(),
    {
        self.commands.append(&mut other.commands);
        assert(self@ =~= old(self)@ + old(other)@);
        assert(other@ =~= Seq::<Action>::empty());
    }

    /// Makes a storage buffer with the given bytes.
    pub fn upload(&mut self, ids: &mut ResourceIds, name: &'static str, data: Vec<u8>) -> (buffer:
        BufferProxy)
        requires
            old(ids).has_room(1),
        ensures
            buffer == (BufferProxy { size: data@.len() as u64, id: old(ids).next_id(), name }),
            final(ids).next_id() == old(ids).next_id() + 1,
            final(self)@ == old(self)@.push(Action::Upload(buffer, data@)),
    {
        let buffer = BufferProxy::new(ids, data.len() as u64, name);
        self.push(Command::Upload(buffer, data));
        buffer
    }

    /// Makes a uniform buffer with the given bytes.
    pub fn upload_uniform(&mut self, ids: &mut ResourceIds, name: &'static str, data: Vec<u8>) -> (
    buffer: BufferProxy)
        requires
            old(ids).has_room(1),
        ensures
            buffer == (BufferProxy { size: data@.len() as u64, id: old(ids).next_id(), name }),
            final(ids).next_id() == old(ids).next_id() + 1,
            final(self)@ == old(self)@.push(Action::UploadUniform(buffer, data@)),
    {
        let buffer = BufferProxy::new(ids, data.len() as u64, name);
        self.push(Command::UploadUniform(buffer, data));
        buffer
    }

    /// Makes an image with the given bytes.
    pub fn upload_image(
        &mut self,
        ids: &mut ResourceIds,
        width: u32,
        height: u32,
        format: ImageFormat,
        data: Vec<u8>,
    ) -> (image: ImageProxy)
        requires
            old(ids).has_room(1),
        ensures
            image == (ImageProxy { width, height, format, id: old(ids).next_id() }),
            final(ids).next_id() == old(ids).next_id() + 1,
            final(self)@ == old(self)@.push(Action::UploadImage(image, data@)),
    {
        let image = ImageProxy::new(ids, width, height, format);
        self.push(Command::UploadImage(image, data));
        image
    }

    /// Writes pixels into an image.
    pub fn write_image(&mut self, image: ImageProxy, x: u32, y: u32, data: ImageData)
        ensures
            final(self)@ == old(self)@.push(Action::WriteImage(image, x, y, data@)),
    {
        self.push(Command::WriteImage(image, x, y, data));
    }

    /// Runs a shader.
    pub fn dispatch(&mut self, shader: ShaderId, size: WorkgroupSize, bindings: Vec<ResourceProxy>)
        ensures
            final(self)@ == old(self)@.push(Action::Dispatch(shader, size, bindings@)),
    {
        self.push(Command::Dispatch(shader, size, bindings));
    }

    /// Runs a shader, with the number of workgroups in a buffer.
    pub fn dispatch_indirect(
        &mut self,
        shader: ShaderId,
        buffer: BufferProxy,
        offset: u64,
        bindings: Vec<ResourceProxy>,
    )
        ensures
            final(self)@ == old(self)@.push(
                Action::DispatchIndirect(shader, buffer, offset, bindings@),
            ),
    {
        self.push(Command::DispatchIndirect(shader, buffer, offset, bindings));
    }

    /// Makes the contents of a buffer available.
    pub fn download(&mut self, buffer: BufferProxy)
        ensures
            final(self)@ == old(self)@.push(Action::Download(buffer)),
    {
        self.push(Command::Download(buffer));
    }

    /// Sets all bytes of a buffer to zero.
    pub fn clear_all(&mut self, buffer: BufferProxy)
        ensures
            final(self)@ == old(self)@.push(Action::Clear(buffer, 0, None)),
    {
        self.push(Command::Clear(buffer, 0, None));
    }

    /// Ends the use of a buffer.
    pub fn free_buffer(&mut self, buffer: BufferProxy)
        ensures
            final(self)@ == old(self)@.push(Action::FreeBuffer(buffer)),
    {
        self.push(Command::FreeBuffer(buffer));
    }

    /// Ends the use of an image.
    pub fn free_image(&mut self, image: ImageProxy)
        ensures
            final(self)@ == old(self)@.push(Action::FreeImage(image)),
    {
        self.push(Command::FreeImage(image));
    }

    /// Ends the use of a resource.
    pub fn free_resource(&mut self, resource: ResourceProxy)
        ensures
            final(self)@ == old(self)@.push(free(resource)),
    {
        match resource {
            ResourceProxy::Buffer(buffer) => self.free_buffer(buffer),
            ResourceProxy::Image(image) => self.free_image(image),
        }
    }
}

} // verus!
