# vkallocator

Places Vulkan buffers and images in device memory.

- `mem_type_assignment`: a memory type for each object. Each object gets the earliest set of
  properties that it can have, and objects share a memory type where they can.
- `layout`: the objects of one memory type, one after the other, in a single allocation.
- `allocation`, `binding`: one device memory per memory type, with a priority where the device
  takes one, and each object bound to its place.
- `mapping`, `mapped_host_obj`, `host_memory`: memory that the host sees.
- `staging_buffers`, `create_objs`: buffers that hold data on its way to the device.
- `memory_bound`, `vulkan`, `errors`: the objects, the Vulkan values and the errors.

The library under `src/` is verified with Verus. It decides; it makes no device calls. Where
decisions and device calls alternate, a function takes a state and what the device did, and returns
the next state and what is to be done. `app/` runs these loops on a device.
